//! Writing and reading JSON are inverse to each other.

use vstd::prelude::*;
use vstd::utf8::*;

verus! {

// ── UTF-8 ──

/// An ASCII text is encoded character by character.
pub proof fn ascii_encoding(s: Seq<char>)
    requires
        is_ascii_chars(s),
    ensures
        encode_utf8(s) == Seq::new(s.len(), |i: int| s[i] as u8),
{
    is_ascii_chars_encode_utf8(s);
    assert(encode_utf8(s) =~= Seq::new(s.len(), |i: int| s[i] as u8));
}

/// The encoding of one character: its width shows in the first byte.
proof fn char_encoding(c: char)
    ensures
        encode_utf8(seq![c]).len() == crate::json::utf8_width(encode_utf8(seq![c])[0]),
        encode_utf8(seq![c]).len() > 0,
        valid_utf8(encode_utf8(seq![c])),
        decode_utf8(encode_utf8(seq![c])) == seq![c],
        (c as u32) < 0x80 ==> encode_utf8(seq![c]) == seq![c as u8],
        (c as u32) >= 0x80 ==> encode_utf8(seq![c])[0] >= 0x80,
{
    let s = seq![c];
    let e = encode_utf8(s);
    assert(s.drop_first() =~= Seq::empty());
    assert(encode_utf8(s.drop_first()) =~= Seq::empty());
    assert(e =~= encode_scalar(c as u32));
    encode_utf8_valid_utf8(s);
    encode_utf8_decode_utf8(s);
    encode_utf8_first_scalar(s);
    if (c as u32) < 0x80 {
        ascii_encoding(s);
        assert(e =~= seq![c as u8]);
    } else {
        char_is_scalar(c);
    }
}

// ── strings ──

/// Reading one written character gives it back.
proof fn char_reads_back(b: Seq<u8>, i: int, c: char)
    requires
        0 <= i,
        crate::json::stands_at(b, i, encode_utf8(crate::json::escaped_char(c))),
    ensures
        i < b.len(),
        b[i] != '"' as u8,
        crate::json::char_at(b, i) == Ok::<(Seq<char>, int), Seq<char>>(
            (seq![c], i + encode_utf8(crate::json::escaped_char(c)).len()),
        ),
{
    let t = crate::json::escaped_char(c);
    let e = encode_utf8(t);
    if t.len() > 1 {
        assert(is_ascii_chars(t));
        ascii_encoding(t);
        assert(e.len() == t.len());
        assert forall|k: int| 0 <= k < t.len() implies #[trigger] b[i + k] == t[k] as u8 by {
            assert(b.subrange(i, i + e.len())[k] == e[k]);
        }
        assert(b[i + 0] == '\\' as u8);
        assert(b[i + 1] == t[1] as u8);
        if t.len() == 6 {
            let s = b.subrange(i + 2, i + 6);
            let hex = t.subrange(2, 6);
            assert(is_ascii_chars(hex));
            ascii_encoding(hex);
            assert(b[i + 2] == t[2] as u8 && b[i + 3] == t[3] as u8 && b[i + 4] == t[4] as u8
                && b[i + 5] == t[5] as u8);
            assert(s =~= encode_utf8(hex));
            encode_utf8_valid_utf8(hex);
            reveal_with_fuel(crate::json::hex_value, 5);
            let s3 = s.drop_last();
            let s2 = s3.drop_last();
            let s1 = s2.drop_last();
            let s0 = s1.drop_last();
            assert(s0.len() == 0);
            assert(s.last() == t[5] as u8 && s3.last() == t[4] as u8 && s2.last() == '0' as u8
                && s1.last() == '0' as u8);
            let n = c as nat;
            assert(n < 32);
            assert(crate::json::hex_digit(t[5] as u8) == Some(n % 16));
            assert(crate::json::hex_digit(t[4] as u8) == Some(n / 16));
            assert(crate::json::hex_digit('0' as u8) == Some(0nat));
            assert(crate::json::hex_value(s0) == Some(0nat));
            assert(crate::json::hex_value(s1) == Some(0nat));
            assert(crate::json::hex_value(s2) == Some(0nat));
            assert(crate::json::hex_value(s3) == Some(n / 16));
            assert(crate::json::hex_value(s) == Some(n));
            char_is_scalar(c);
            char_u32_cast(c, n as u32);
        }
    } else {
        assert(t =~= seq![c]);
        char_encoding(c);
        assert(b.subrange(i, i + e.len())[0] == b[i]);
        assert(b[i] == e[0]);
    }
}

/// Reading the written characters of a string gives the string back.
proof fn chars_read_back(b: Seq<u8>, i: int, s: Seq<char>)
    requires
        0 <= i,
        crate::json::stands_at(b, i, encode_utf8(crate::json::escaped_chars(s)) + seq!['"' as u8]),
    ensures
        crate::json::chars_at(b, i) == Ok::<(Seq<char>, int), Seq<char>>(
            (s, i + encode_utf8(crate::json::escaped_chars(s)).len() + 1),
        ),
    decreases s.len(),
{
    let rest = crate::json::escaped_chars(s);
    let e = encode_utf8(rest);
    let all = e + seq!['"' as u8];
    if s.len() == 0 {
        assert(b.subrange(i, i + all.len())[0] == b[i]);
        assert(e.len() == 0);
        assert(s =~= Seq::empty());
    } else {
        let first = crate::json::escaped_char(s[0]);
        let more = crate::json::escaped_chars(s.drop_first());
        crate::text::encoding_concatenates(first, more);
        let f = encode_utf8(first);
        let m = encode_utf8(more);
        assert(e == f + m);
        assert(b.subrange(i, i + f.len()) =~= b.subrange(i, i + all.len()).subrange(
            0,
            f.len() as int,
        ));
        assert((f + m + seq!['"' as u8]).subrange(0, f.len() as int) =~= f);
        char_reads_back(b, i, s[0]);
        let j = i + f.len();
        assert(b.subrange(j, j + m.len() + 1) =~= b.subrange(i, i + all.len()).subrange(
            f.len() as int,
            all.len() as int,
        ));
        assert((f + m + seq!['"' as u8]).subrange(f.len() as int, all.len() as int) =~= m
            + seq!['"' as u8]);
        assert((m + seq!['"' as u8]).len() == m.len() + 1);
        chars_read_back(b, j, s.drop_first());
        assert(seq![s[0]] + s.drop_first() =~= s);
    }
}

/// A written string stands for itself wherever it is read.
proof fn string_reads_back(b: Seq<u8>, i: int, s: Seq<char>)
    requires
        0 <= i,
        crate::json::stands_at(b, i, encode_utf8(crate::json::escaped(s))),
    ensures
        crate::json::holds_at(b, i, '"'),
        crate::json::chars_at(b, i + 1) == Ok::<(Seq<char>, int), Seq<char>>(
            (s, i + encode_utf8(crate::json::escaped(s)).len()),
        ),
{
    let body = crate::json::escaped_chars(s);
    let quote = seq!['"'];
    crate::text::encoding_concatenates(quote + body, quote);
    crate::text::encoding_concatenates(quote, body);
    char_encoding('"');
    let q = seq!['"' as u8];
    let e = encode_utf8(body);
    let all = q + e + q;
    assert(encode_utf8(crate::json::escaped(s)) == all);
    assert(b.subrange(i, i + all.len())[0] == b[i]);
    assert(b.subrange(i + 1, i + 1 + (e + q).len()) =~= b.subrange(i, i + all.len()).subrange(
        1,
        all.len() as int,
    ));
    assert(all.subrange(1, all.len() as int) =~= e + q);
    chars_read_back(b, i + 1, s);
}

// ── numbers ──

/// Every byte is a digit.
spec fn all_digits(s: Seq<u8>) -> bool {
    forall|i: int| 0 <= i < s.len() ==> crate::decimal::is_digit(#[trigger] s[i])
}

proof fn digits_end_at(s: Seq<u8>, i: int, j: int)
    requires
        0 <= i <= j <= s.len(),
        forall|k: int| i <= k < j ==> crate::decimal::is_digit(#[trigger] s[k]),
        j < s.len() ==> !crate::decimal::is_digit(s[j]),
    ensures
        crate::decimal::digits_end(s, i) == j,
    decreases j - i,
{
    if i < j {
        assert(crate::decimal::is_digit(s[i]));
        digits_end_at(s, i + 1, j);
    }
}

proof fn digits_value_concat(a: Seq<u8>, b: Seq<u8>)
    requires
        all_digits(b),
    ensures
        crate::decimal::digits_value(a + b) == crate::decimal::digits_value(a)
            * crate::decimal::ten(b.len()) + crate::decimal::digits_value(b),
    decreases b.len(),
{
    let v = crate::decimal::digits_value(a);
    if b.len() == 0 {
        assert(a + b =~= a);
        assert(v * 1 == v) by (nonlinear_arith);
    } else {
        let init = b.drop_last();
        digits_value_concat(a, init);
        assert((a + b).drop_last() =~= a + init);
        assert(crate::decimal::is_digit(b[b.len() - 1]));
        let t = crate::decimal::ten(init.len());
        assert(10 * (v * t) == v * (10 * t)) by (nonlinear_arith);
    }
}

/// Bytes of an ASCII text.
pub open spec fn bytes_of(s: Seq<char>) -> Seq<u8> {
    Seq::new(s.len(), |i: int| s[i] as u8)
}

proof fn zeros_have_no_value(n: nat)
    ensures
        all_digits(bytes_of(crate::shortest::zeros(n))),
        crate::decimal::digits_value(bytes_of(crate::shortest::zeros(n))) == 0,
    decreases n,
{
    if n > 0 {
        zeros_have_no_value((n - 1) as nat);
        assert(bytes_of(crate::shortest::zeros(n)).drop_last() =~= bytes_of(
            crate::shortest::zeros((n - 1) as nat),
        ));
    }
}

/// The numeral of a number consists of digits that spell it.
proof fn numeral_spells(n: nat)
    ensures
        all_digits(bytes_of(crate::text::decimal(n))),
        crate::text::decimal(n).len() > 0,
        is_ascii_chars(crate::text::decimal(n)),
        crate::decimal::digits_value(bytes_of(crate::text::decimal(n))) == n,
    decreases n,
{
    let t = crate::text::decimal(n);
    let b = bytes_of(t);
    if n < 10 {
        assert(b.drop_last() =~= Seq::empty());
        assert(crate::decimal::digits_value(b.drop_last()) == 0);
    } else {
        numeral_spells(n / 10);
        assert(b.drop_last() =~= bytes_of(crate::text::decimal(n / 10)));
        assert forall|i: int| 0 <= i < b.len() implies crate::decimal::is_digit(#[trigger] b[i]) by {
            if i < b.len() - 1 {
                assert(b[i] == b.drop_last()[i]);
            }
        }
        assert forall|i: int| 0 <= i < t.len() implies '\0' <= #[trigger] t[i] <= '\u{7f}' by {
            if i < t.len() - 1 {
                assert(t[i] == crate::text::decimal(n / 10)[i]);
            }
        }
    }
}

/// A text that is a numeral for the number with sign `negative`, digits worth
/// `n` and the given exponent.
spec fn spells(s: Seq<u8>, negative: bool, n: nat, exponent: int) -> bool {
    match crate::decimal::decimal(s) {
        Some(d) => d.negative == negative && crate::decimal::digits_value(d.digits) == n
            && d.exponent == exponent,
        None => false,
    }
}

/// The optional minus sign.
spec fn sign(negative: bool) -> Seq<u8> {
    if negative {
        seq!['-' as u8]
    } else {
        Seq::empty()
    }
}

proof fn whole_numeral_spells(negative: bool, digits: Seq<u8>)
    requires
        all_digits(digits),
        digits.len() > 0,
    ensures
        spells(sign(negative) + digits, negative, crate::decimal::digits_value(digits), 0),
{
    let s = sign(negative) + digits;
    let start = sign(negative).len() as int;
    assert forall|k: int| start <= k < s.len() implies crate::decimal::is_digit(#[trigger] s[k]) by {
        assert(s[k] == digits[k - start]);
    }
    assert(s[start] == digits[0]);
    assert(crate::decimal::is_digit(digits[0]));
    digits_end_at(s, start, s.len() as int);
    assert(s.subrange(start, s.len() as int) + Seq::<u8>::empty() =~= digits);
}

proof fn pointed_numeral_spells(negative: bool, a: Seq<u8>, c: Seq<u8>)
    requires
        all_digits(a),
        all_digits(c),
        a.len() > 0,
    ensures
        spells(
            sign(negative) + (a + seq!['.' as u8] + c),
            negative,
            crate::decimal::digits_value(a + c),
            -(c.len() as int),
        ),
{
    let s = sign(negative) + (a + seq!['.' as u8] + c);
    let start = sign(negative).len() as int;
    let whole = start + a.len();
    assert forall|k: int| start <= k < whole implies crate::decimal::is_digit(#[trigger] s[k]) by {
        assert(s[k] == a[k - start]);
    }
    assert(s[start] == a[0]);
    assert(crate::decimal::is_digit(a[0]));
    digits_end_at(s, start, whole);
    assert(s[whole] == '.' as u8);
    assert forall|k: int| whole + 1 <= k < s.len() implies crate::decimal::is_digit(
        #[trigger] s[k],
    ) by {
        assert(s[k] == c[k - whole - 1]);
    }
    digits_end_at(s, whole + 1, s.len() as int);
    assert(s.subrange(start, whole) =~= a);
    assert(s.subrange(whole + 1, s.len() as int) =~= c);
}

/// An unsigned text made of numeric ASCII characters, starting with a digit, that
/// spells a number behind the given sign.
spec fn sound(t: Seq<char>, negative: bool, n: nat, exponent: int) -> bool {
    &&& is_ascii_chars(t)
    &&& t.len() > 0
    &&& forall|i: int| 0 <= i < t.len() ==> crate::json::is_numeric(#[trigger] bytes_of(t)[i])
    &&& crate::decimal::is_digit(bytes_of(t)[0])
    &&& spells(sign(negative) + bytes_of(t), negative, n, exponent)
}

proof fn integer_is_sound(negative: bool, n: nat, k: nat)
    requires
        n > 0,
    ensures
        sound(
            crate::text::decimal(n) + crate::shortest::zeros(k),
            negative,
            n * crate::decimal::ten(k),
            0,
        ),
{
    let ds = crate::text::decimal(n);
    let d = bytes_of(ds);
    let z = bytes_of(crate::shortest::zeros(k));
    let t = ds + crate::shortest::zeros(k);
    let b = bytes_of(t);
    numeral_spells(n);
    zeros_have_no_value(k);
    assert(b =~= d + z);
    digits_value_concat(d, z);
    assert forall|i: int| 0 <= i < b.len() implies crate::decimal::is_digit(#[trigger] b[i]) by {
        if i < d.len() {
            assert(b[i] == d[i]);
        } else {
            assert(b[i] == z[i - d.len()]);
        }
    }
    whole_numeral_spells(negative, b);
    assert forall|i: int| 0 <= i < t.len() implies '\0' <= #[trigger] t[i] <= '\u{7f}' by {
        if i < ds.len() {
            assert(t[i] == ds[i]);
        }
    }
}

proof fn pointed_is_sound(negative: bool, a: Seq<char>, c: Seq<char>)
    requires
        is_ascii_chars(a),
        is_ascii_chars(c),
        all_digits(bytes_of(a)),
        all_digits(bytes_of(c)),
        a.len() > 0,
    ensures
        sound(
            a + "."@ + c,
            negative,
            crate::decimal::digits_value(bytes_of(a) + bytes_of(c)),
            -(c.len() as int),
        ),
{
    reveal_strlit(".");
    let t = a + "."@ + c;
    let b = bytes_of(t);
    let x = bytes_of(a);
    let y = bytes_of(c);
    assert(b =~= x + seq!['.' as u8] + y);
    pointed_numeral_spells(negative, x, y);
    assert forall|i: int| 0 <= i < b.len() implies crate::json::is_numeric(#[trigger] b[i]) by {
        if i < a.len() {
            assert(b[i] == x[i]);
        } else if i > a.len() {
            assert(b[i] == y[i - a.len() - 1]);
        }
    }
    assert(b[0] == x[0]);
    assert forall|i: int| 0 <= i < t.len() implies '\0' <= #[trigger] t[i] <= '\u{7f}' by {
        if i < a.len() {
            assert(t[i] == a[i]);
        } else if i > a.len() {
            assert(t[i] == c[i - a.len() - 1]);
        }
    }
}

/// Leading zeros add nothing to the value of digits.
proof fn leading_zeros_add_nothing(m: nat, d: Seq<u8>)
    requires
        all_digits(d),
    ensures
        crate::decimal::digits_value(bytes_of(seq!['0']) + (bytes_of(crate::shortest::zeros(m)) + d))
            == crate::decimal::digits_value(d),
{
    let x = bytes_of(seq!['0']);
    let z = bytes_of(crate::shortest::zeros(m));
    zeros_have_no_value(m);
    digits_value_concat(x + z, d);
    digits_value_concat(x, z);
    assert(x + (z + d) =~= (x + z) + d);
    assert(x.drop_last() =~= Seq::empty());
    assert(crate::decimal::digits_value(x.drop_last()) == 0);
    assert(crate::decimal::digits_value(x) == 0);
    assert(0 * crate::decimal::ten(z.len()) == 0 && 0 * crate::decimal::ten(d.len()) == 0)
        by (nonlinear_arith);
}

/// A decimal point among the digits of a number.
proof fn inner_point_is_sound(negative: bool, n: nat, k: int)
    requires
        n > 0,
        k < 0,
        crate::text::decimal(n).len() > -k,
    ensures
        sound(crate::shortest::positional(crate::text::decimal(n), k), negative, n, k),
{
    let ds = crate::text::decimal(n);
    let d = bytes_of(ds);
    numeral_spells(n);
    let cut = ds.len() + k;
    let a = ds.take(cut);
    let c = ds.skip(cut);
    let x = bytes_of(a);
    let y = bytes_of(c);
    assert forall|i: int| 0 <= i < x.len() implies crate::decimal::is_digit(#[trigger] x[i]) by {
        assert(x[i] == d[i]);
    }
    assert forall|i: int| 0 <= i < y.len() implies crate::decimal::is_digit(#[trigger] y[i]) by {
        assert(y[i] == d[i + cut]);
    }
    pointed_is_sound(negative, a, c);
    assert(x + y =~= d);
}

/// A decimal point before the digits of a number, with zeros in between.
proof fn leading_point_is_sound(negative: bool, n: nat, k: int)
    requires
        n > 0,
        k < 0,
        crate::text::decimal(n).len() <= -k,
    ensures
        sound(crate::shortest::positional(crate::text::decimal(n), k), negative, n, k),
{
    let ds = crate::text::decimal(n);
    let d = bytes_of(ds);
    numeral_spells(n);
    let m = (-k - ds.len()) as nat;
    let zs = crate::shortest::zeros(m);
    let z = bytes_of(zs);
    zeros_have_no_value(m);
    let a = seq!['0'];
    let c = zs + ds;
    let y = bytes_of(c);
    assert(y =~= z + d);
    assert forall|i: int| 0 <= i < y.len() implies crate::decimal::is_digit(#[trigger] y[i]) by {
        if i < z.len() {
            assert(y[i] == z[i]);
        } else {
            assert(y[i] == d[i - z.len()]);
        }
    }
    assert forall|i: int| 0 <= i < c.len() implies '\0' <= #[trigger] c[i] <= '\u{7f}' by {
        if i >= zs.len() {
            assert(c[i] == ds[i - zs.len()]);
        }
    }
    pointed_is_sound(negative, a, c);
    leading_zeros_add_nothing(m, d);
    assert(a + "."@ + c =~= "0."@ + zs + ds) by {
        reveal_strlit("0.");
        reveal_strlit(".");
    }
}

proof fn fraction_is_sound(negative: bool, n: nat, k: int)
    requires
        n > 0,
        k < 0,
    ensures
        sound(crate::shortest::positional(crate::text::decimal(n), k), negative, n, k),
{
    if crate::text::decimal(n).len() > -k {
        inner_point_is_sound(negative, n, k);
    } else {
        leading_point_is_sound(negative, n, k);
    }
}

/// A number that its text can stand for.
pub open spec fn finite(bits: u64) -> bool {
    crate::decimal::pattern(bits) < crate::ieee::Format::Double.infinity()
}

/// The number that its text stands for: negative zero is written like zero.
pub open spec fn written(bits: u64) -> u64 {
    if bits == 0x8000_0000_0000_0000 {
        0
    } else {
        bits
    }
}

spec fn writable(bits: u64) -> bool {
    finite(bits) && bits != 0x8000_0000_0000_0000
}

/// A text that is ASCII and numeric, starts with a digit or a minus sign, and is
/// a numeral for the number.
spec fn reads_as(t: Seq<char>, bits: u64) -> bool {
    &&& is_ascii_chars(t)
    &&& t.len() > 0
    &&& forall|i: int| 0 <= i < t.len() ==> crate::json::is_numeric(#[trigger] bytes_of(t)[i])
    &&& crate::decimal::is_digit(bytes_of(t)[0]) || bytes_of(t)[0] == '-' as u8
    &&& crate::decimal::decimal(bytes_of(t)) matches Some(d) && d.double() == bits
}

proof fn signed_reads_as(u: Seq<char>, n: nat, exponent: int, bits: u64)
    requires
        sound(u, crate::decimal::f64_negative(bits), n, exponent),
        crate::decimal::nearest_value(crate::ieee::Format::Double, n, exponent)
            == crate::decimal::pattern(bits),
    ensures
        reads_as(
            (if crate::decimal::f64_negative(bits) {
                "-"@
            } else {
                Seq::empty()
            }) + u,
            bits,
        ),
{
    reveal_strlit("-");
    let negative = crate::decimal::f64_negative(bits);
    let minus = if negative {
        "-"@
    } else {
        Seq::empty()
    };
    let t = minus + u;
    let b = bytes_of(t);
    let x = bytes_of(u);
    assert(b =~= sign(negative) + x);
    assert forall|i: int| 0 <= i < t.len() implies crate::json::is_numeric(#[trigger] b[i]) by {
        if i >= minus.len() {
            assert(b[i] == x[i - minus.len()]);
        }
    }
    assert forall|i: int| 0 <= i < t.len() implies '\0' <= #[trigger] t[i] <= '\u{7f}' by {
        if i >= minus.len() {
            assert(t[i] == u[i - minus.len()]);
        }
    }
}

proof fn integer_text_reads_as(bits: u64)
    requires
        writable(bits),
        crate::decimal::integral(bits),
    ensures
        reads_as(
            (if crate::decimal::f64_negative(bits) && crate::decimal::integer_part(bits) > 0 {
                "-"@
            } else {
                Seq::empty()
            }) + crate::text::decimal(crate::decimal::integer_part(bits)),
            bits,
        ),
{
    let f = crate::ieee::Format::Double;
    let p = crate::decimal::pattern(bits);
    let n = crate::decimal::integer_part(bits);
    let m = f.magnitude(p);
    let u = vstd::arithmetic::power2::pow2(1074);
    let negative = crate::decimal::f64_negative(bits);
    vstd::arithmetic::power2::lemma_pow2_pos(1074);
    vstd::arithmetic::div_mod::lemma_fundamental_div_mod(m as int, u as int);
    assert(m == n * u) by (nonlinear_arith)
        requires
            m == u * n + 0,
    ;
    crate::ieee::rounding_is_exact(f, p, 1);
    assert(n * crate::decimal::ten(0) * u == m * 1) by (nonlinear_arith)
        requires
            m == n * u,
            crate::decimal::ten(0) == 1,
    ;
    let ds = crate::text::decimal(n);
    numeral_spells(n);
    if p > 0 {
        crate::ieee::magnitude_increases(f, 0, p);
        assert(n > 0) by (nonlinear_arith)
            requires
                m > 0,
                m == n * u,
        ;
    } else {
        assert(!negative);
    }
    whole_numeral_spells(negative, bytes_of(ds));
    assert(crate::decimal::is_digit(bytes_of(ds)[0]));
    signed_reads_as(ds, n, 0, bits);
}

proof fn display_reads_as(bits: u64)
    requires
        writable(bits),
        crate::decimal::pattern(bits) > 0,
    ensures
        reads_as(crate::shortest::display(bits), bits),
{
    let f = crate::ieee::Format::Double;
    let p = crate::decimal::pattern(bits);
    let negative = crate::decimal::f64_negative(bits);
    crate::shortest::shortest_reads_back(f, p);
    let dg = crate::shortest::shortest_digits(f, p);
    let k = crate::shortest::shortest_exponent(f, p);
    let pos = crate::shortest::positional(crate::text::decimal(dg), k);
    if k >= 0 {
        let tk = crate::decimal::ten(k as nat);
        let u = vstd::arithmetic::power2::pow2(1074);
        integer_is_sound(negative, dg, k as nat);
        assert((dg * tk) * crate::decimal::ten(0) * u == dg * tk * u) by (nonlinear_arith)
            requires
                crate::decimal::ten(0) == 1,
        ;
        signed_reads_as(pos, dg * tk, 0, bits);
    } else {
        fraction_is_sound(negative, dg, k);
        signed_reads_as(pos, dg, k, bits);
    }
}

proof fn number_text_reads_as(bits: u64)
    requires
        writable(bits),
    ensures
        reads_as(crate::json::number_text(bits), bits),
{
    let f = crate::ieee::Format::Double;
    let p = crate::decimal::pattern(bits);
    let n = crate::decimal::integer_part(bits);
    if crate::decimal::integral(bits) && n < 9_000_000_000_000_000 {
        integer_text_reads_as(bits);
    } else {
        if p == 0 {
            let u = vstd::arithmetic::power2::pow2(1074);
            vstd::arithmetic::power2::lemma_pow2_pos(1074);
            assert(f.magnitude(0) == 0) by (nonlinear_arith)
                requires
                    f.magnitude(0) == 0 * vstd::arithmetic::power2::pow2(f.scale(0)),
            ;
            vstd::arithmetic::div_mod::lemma_small_mod(0, u);
            vstd::arithmetic::div_mod::lemma_basic_div(0, u as int);
        }
        display_reads_as(bits);
    }
}

proof fn zeros_are_written_alike()
    ensures
        crate::json::number_text(0x8000_0000_0000_0000) == crate::json::number_text(0),
{
    let f = crate::ieee::Format::Double;
    let u = vstd::arithmetic::power2::pow2(1074);
    vstd::arithmetic::power2::lemma_pow2_pos(1074);
    assert(f.magnitude(0) == 0) by (nonlinear_arith)
        requires
            f.magnitude(0) == 0 * vstd::arithmetic::power2::pow2(f.scale(0)),
    ;
    vstd::arithmetic::div_mod::lemma_small_mod(0, u);
    vstd::arithmetic::div_mod::lemma_basic_div(0, u as int);
}

// ── values ──

/// All the numbers in the value are finite.
pub open spec fn plain(v: crate::json::JsonView) -> bool
    decreases v,
{
    match v {
        crate::json::JsonView::Num(n) => finite(n),
        crate::json::JsonView::Arr(items) => forall|i: int|
            0 <= i < items.len() ==> plain(#[trigger] items[i]),
        crate::json::JsonView::Obj(pairs) => forall|i: int|
            0 <= i < pairs.len() ==> plain((#[trigger] pairs[i]).1),
        _ => true,
    }
}

/// `w` is `v` but for the sign of its zeros, which are positive.
pub open spec fn unsigned_zeros(v: crate::json::JsonView, w: crate::json::JsonView) -> bool
    decreases v,
{
    match v {
        crate::json::JsonView::Num(n) => w == crate::json::JsonView::Num(written(n)),
        crate::json::JsonView::Arr(items) => {
            &&& w matches crate::json::JsonView::Arr(others)
            &&& others.len() == items.len()
            &&& forall|i: int|
                0 <= i < items.len() ==> unsigned_zeros(#[trigger] items[i], others[i])
        },
        crate::json::JsonView::Obj(pairs) => {
            &&& w matches crate::json::JsonView::Obj(others)
            &&& others.len() == pairs.len()
            &&& forall|i: int|
                0 <= i < pairs.len() ==> (#[trigger] pairs[i]).0 == others[i].0 && unsigned_zeros(
                    pairs[i].1,
                    others[i].1,
                )
        },
        _ => w == v,
    }
}

/// No number in the value is negative zero.
pub open spec fn without_negative_zero(v: crate::json::JsonView) -> bool
    decreases v,
{
    match v {
        crate::json::JsonView::Num(n) => n != 0x8000_0000_0000_0000,
        crate::json::JsonView::Arr(items) => forall|i: int|
            0 <= i < items.len() ==> without_negative_zero(#[trigger] items[i]),
        crate::json::JsonView::Obj(pairs) => forall|i: int|
            0 <= i < pairs.len() ==> without_negative_zero((#[trigger] pairs[i]).1),
        _ => true,
    }
}

proof fn nothing_to_change(v: crate::json::JsonView, w: crate::json::JsonView)
    requires
        unsigned_zeros(v, w),
        without_negative_zero(v),
    ensures
        w == v,
    decreases v,
{
    match v {
        crate::json::JsonView::Arr(items) => {
            let others = w->Arr_0;
            assert forall|i: int| 0 <= i < items.len() implies others[i] == #[trigger] items[i] by {
                nothing_to_change(items[i], others[i]);
            }
            assert(others =~= items);
        },
        crate::json::JsonView::Obj(pairs) => {
            let others = w->Obj_0;
            assert forall|i: int| 0 <= i < pairs.len() implies others[i] == #[trigger] pairs[i] by {
                nothing_to_change(pairs[i].1, others[i].1);
            }
            assert(others =~= pairs);
        },
        _ => {},
    }
}

/// No number goes on at position `p`.
pub open spec fn ends(b: Seq<u8>, p: int) -> bool {
    p == b.len() || !crate::json::is_numeric(b[p])
}

/// A text that reads as the value wherever it stands, unless it is a number and more
/// numeric characters follow. It starts neither with white space nor with a closing
/// bracket.
#[verifier::opaque]
pub open spec fn denotes(t: Seq<char>, v: crate::json::JsonView) -> bool {
    let e = encode_utf8(t);
    &&& e.len() > 0
    &&& !crate::json::is_space(e[0])
    &&& e[0] != ']' as u8
    &&& e[0] != '}' as u8
    &&& forall|b: Seq<u8>, i: int|
        0 <= i && crate::json::stands_at(b, i, e) && ends(b, i + e.len())
            ==> #[trigger] crate::json::value_at(b, i) == Ok::<
            (crate::json::JsonView, int),
            Seq<char>,
        >((v, i + e.len()))
}

proof fn first_byte(s: Seq<char>)
    requires
        s.len() > 0,
        (s[0] as u32) < 0x80,
    ensures
        encode_utf8(s).len() > 0,
        encode_utf8(s)[0] == s[0] as u8,
{
    let rest = s.drop_first();
    assert(s =~= seq![s[0]] + rest);
    crate::text::encoding_concatenates(seq![s[0]], rest);
    char_encoding(s[0]);
}

/// `x` stands at `i` and `y` behind it.
proof fn stands_apart(b: Seq<u8>, i: int, x: Seq<u8>, y: Seq<u8>)
    requires
        0 <= i,
        crate::json::stands_at(b, i, x + y),
    ensures
        crate::json::stands_at(b, i, x),
        crate::json::stands_at(b, i + x.len(), y),
{
    let w = b.subrange(i, i + (x + y).len());
    assert(b.subrange(i, i + x.len()) =~= w.subrange(0, x.len() as int));
    assert((x + y).subrange(0, x.len() as int) =~= x);
    assert(b.subrange(i + x.len(), i + x.len() + y.len()) =~= w.subrange(
        x.len() as int,
        (x + y).len() as int,
    ));
    assert((x + y).subrange(x.len() as int, (x + y).len() as int) =~= y);
}

proof fn byte_stands(b: Seq<u8>, i: int, c: char)
    requires
        0 <= i,
        (c as u32) < 0x80,
        crate::json::stands_at(b, i, encode_utf8(seq![c])),
    ensures
        crate::json::holds_at(b, i, c),
        encode_utf8(seq![c]).len() == 1,
{
    char_encoding(c);
    assert(b.subrange(i, i + 1)[0] == b[i]);
}

proof fn numeric_end_at(b: Seq<u8>, i: int, j: int)
    requires
        0 <= i <= j <= b.len(),
        forall|k: int| i <= k < j ==> crate::json::is_numeric(#[trigger] b[k]),
        ends(b, j),
    ensures
        crate::json::numeric_end(b, i) == j,
    decreases j - i,
{
    if i < j {
        assert(crate::json::is_numeric(b[i]));
        numeric_end_at(b, i + 1, j);
    }
}

/// A text that denotes a value is one by itself.
pub proof fn denoted_value_is_read(t: Seq<char>, v: crate::json::JsonView)
    requires
        denotes(t, v),
    ensures
        crate::json::parsed(encode_utf8(t)) == Ok::<crate::json::JsonView, Seq<char>>(v),
{
    reveal(denotes);
    let b = encode_utf8(t);
    assert(b.subrange(0, b.len() as int) =~= b);
    assert(crate::json::value_at(b, 0) == Ok::<(crate::json::JsonView, int), Seq<char>>(
        (v, b.len() as int),
    ));
}

/// Only white space: spaces, tabs, line feeds and carriage returns.
pub open spec fn blank(w: Seq<char>) -> bool {
    forall|i: int|
        0 <= i < w.len() ==> (#[trigger] w[i]) == ' ' || w[i] == '\t' || w[i] == '\n' || w[i]
            == '\r'
}

/// White space that stands from `i` up to `end` is skipped, and no further.
proof fn blanks_are_skipped(b: Seq<u8>, i: int, end: int)
    requires
        0 <= i <= end <= b.len(),
        forall|k: int| i <= k < end ==> crate::json::is_space(#[trigger] b[k]),
        end < b.len() ==> !crate::json::is_space(b[end]),
    ensures
        crate::json::skip(b, i) == end,
    decreases end - i,
{
    if i < end {
        assert(crate::json::is_space(b[i]));
        blanks_are_skipped(b, i + 1, end);
    }
}

proof fn blank_bytes(w: Seq<char>)
    requires
        blank(w),
    ensures
        encode_utf8(w).len() == w.len(),
        forall|k: int| 0 <= k < w.len() ==> crate::json::is_space(#[trigger] encode_utf8(w)[k]),
{
    assert(is_ascii_chars(w)) by {
        assert forall|i: int| 0 <= i < w.len() implies '\0' <= #[trigger] w[i] <= '\u{7f}' by {}
    }
    ascii_encoding(w);
    assert forall|k: int| 0 <= k < w.len() implies crate::json::is_space(
        #[trigger] encode_utf8(w)[k],
    ) by {
        assert(w[k] == ' ' || w[k] == '\t' || w[k] == '\n' || w[k] == '\r');
    }
}

/// White space around a text that denotes a value does not matter.
pub proof fn blanks_around_are_ignored(
    before: Seq<char>,
    t: Seq<char>,
    after: Seq<char>,
    v: crate::json::JsonView,
)
    requires
        denotes(t, v),
        blank(before),
        blank(after),
    ensures
        crate::json::parsed(encode_utf8(before + t + after)) == Ok::<
            crate::json::JsonView,
            Seq<char>,
        >(v),
{
    reveal(denotes);
    let x = encode_utf8(before);
    let e = encode_utf8(t);
    let y = encode_utf8(after);
    let b = encode_utf8(before + t + after);
    crate::text::encoding_concatenates(before + t, after);
    crate::text::encoding_concatenates(before, t);
    assert(b == x + e + y);
    blank_bytes(before);
    blank_bytes(after);
    let i = x.len() as int;
    let p = i + e.len();
    assert forall|k: int| 0 <= k < i implies crate::json::is_space(#[trigger] b[k]) by {
        assert(b[k] == x[k]);
    }
    assert forall|k: int| p <= k < b.len() implies crate::json::is_space(#[trigger] b[k]) by {
        assert(b[k] == y[k - p]);
    }
    assert(b[i] == e[0]);
    blanks_are_skipped(b, 0, i);
    blanks_are_skipped(b, p, b.len() as int);
    assert(b.subrange(i, p) =~= e);
    assert(ends(b, p));
    assert(crate::json::value_at(b, i) == Ok::<(crate::json::JsonView, int), Seq<char>>((v, p)));
}

/// A numeral denotes its number.
proof fn numeral_denotes(t: Seq<char>, bits: u64)
    requires
        reads_as(t, bits),
    ensures
        denotes(t, crate::json::JsonView::Num(bits)),
{
    reveal(denotes);
    let e = encode_utf8(t);
    ascii_encoding(t);
    assert(e =~= bytes_of(t));
    assert forall|b: Seq<u8>, i: int|
        0 <= i && crate::json::stands_at(b, i, e) && ends(b, i + e.len()) implies (
    #[trigger] crate::json::value_at(b, i)) == Ok::<(crate::json::JsonView, int), Seq<char>>(
        (crate::json::JsonView::Num(bits), i + e.len()),
    ) by {
        let w = b.subrange(i, i + e.len());
        assert forall|k: int| i <= k < i + e.len() implies crate::json::is_numeric(
            #[trigger] b[k],
        ) by {
            assert(b[k] == w[k - i]);
            assert(w[k - i] == bytes_of(t)[k - i]);
        }
        assert(b[i] == w[0]);
        numeric_end_at(b, i, i + e.len());
    }
}

/// The double nearest to `n` times ten to the `exponent`, with a sign.
pub open spec fn signed_double(negative: bool, n: nat, exponent: int) -> u64 {
    ((if negative {
        0x8000_0000_0000_0000nat
    } else {
        0nat
    }) + crate::decimal::nearest_value(crate::ieee::Format::Double, n, exponent)) as u64
}

proof fn sound_text_denotes(u: Seq<char>, negative: bool, n: nat, exponent: int)
    requires
        sound(u, negative, n, exponent),
    ensures
        denotes(
            (if negative {
                "-"@
            } else {
                Seq::empty()
            }) + u,
            crate::json::JsonView::Num(signed_double(negative, n, exponent)),
        ),
{
    let f = crate::ieee::Format::Double;
    let bits = signed_double(negative, n, exponent);
    if exponent >= 0 {
        crate::ieee::nearest_exists(
            f,
            n * crate::decimal::ten(exponent as nat) * vstd::arithmetic::power2::pow2(1074),
            1,
        );
    } else {
        crate::decimal::ten_positive((-exponent) as nat);
        crate::ieee::nearest_exists(
            f,
            n * vstd::arithmetic::power2::pow2(1074),
            crate::decimal::ten((-exponent) as nat),
        );
    }
    signed_reads_as(u, n, exponent, bits);
    numeral_denotes(
        (if negative {
            "-"@
        } else {
            Seq::empty()
        }) + u,
        bits,
    );
}

/// The decimal numeral of a natural number denotes the double nearest to it.
pub proof fn natural_denotes(n: nat)
    ensures
        denotes(
            crate::text::decimal(n),
            crate::json::JsonView::Num(signed_double(false, n, 0)),
        ),
{
    let t = crate::text::decimal(n);
    numeral_spells(n);
    whole_numeral_spells(false, bytes_of(t));
    assert(crate::decimal::is_digit(bytes_of(t)[0]));
    sound_text_denotes(t, false, n, 0);
    assert(Seq::<char>::empty() + t =~= t);
}

/// A number with two decimals denotes the double nearest to it.
pub proof fn hundredths_denote(h: nat)
    ensures
        denotes(
            crate::fixed::hundredths_text(h),
            crate::json::JsonView::Num(signed_double(false, h, -2)),
        ),
{
    let a = crate::text::decimal(h / 100);
    let c = seq![
        crate::text::digit_char(h / 10 % 10),
        crate::text::digit_char(h % 10),
    ];
    let t = crate::fixed::hundredths_text(h);
    numeral_spells(h / 100);
    let y = bytes_of(c);
    assert(all_digits(y));
    assert(crate::decimal::digits_value(y) == h % 100) by {
        let one = y.drop_last();
        assert(one.drop_last() =~= Seq::empty());
        assert(crate::decimal::digits_value(one.drop_last()) == 0);
        assert(crate::decimal::digits_value(one) == h / 10 % 10);
        assert(h % 100 == 10 * (h / 10 % 10) + h % 10);
    }
    digits_value_concat(bytes_of(a), y);
    assert(crate::decimal::ten(2) == 100) by {
        assert(crate::decimal::ten(0) == 1);
        assert(crate::decimal::ten(1) == 10);
    }
    pointed_is_sound(false, a, c);
    reveal_strlit(".");
    assert(a + "."@ + c =~= t);
    sound_text_denotes(t, false, h, -2);
    assert(Seq::<char>::empty() + t =~= t);
}

/// The number that the text of an f32 stands for.
pub open spec fn shown_f32(bits: u32) -> crate::json::JsonView {
    let f = crate::ieee::Format::Single;
    let p = bits as nat % 0x8000_0000;
    crate::json::JsonView::Num(
        if p == 0 {
            signed_double(crate::ieee::f32_negative(bits), 0, 0)
        } else {
            signed_double(
                crate::ieee::f32_negative(bits),
                crate::shortest::shortest_digits(f, p),
                crate::shortest::shortest_exponent(f, p),
            )
        },
    )
}

/// The text of a finite f32 denotes the double nearest to it.
pub proof fn f32_denotes(bits: u32)
    requires
        bits as nat % 0x8000_0000 < 0x7f80_0000,
    ensures
        denotes(crate::shortest::display_f32(bits), shown_f32(bits)),
{
    let f = crate::ieee::Format::Single;
    let p = bits as nat % 0x8000_0000;
    let negative = crate::ieee::f32_negative(bits);
    if p == 0 {
        reveal_strlit("0");
        let t = crate::text::decimal(0);
        numeral_spells(0);
        whole_numeral_spells(negative, bytes_of(t));
        assert(t =~= "0"@);
        assert(crate::decimal::is_digit(bytes_of(t)[0]));
        sound_text_denotes(t, negative, 0, 0);
    } else {
        crate::shortest::shortest_reads_back(f, p);
        let dg = crate::shortest::shortest_digits(f, p);
        let k = crate::shortest::shortest_exponent(f, p);
        let pos = crate::shortest::positional(crate::text::decimal(dg), k);
        if k >= 0 {
            let tk = crate::decimal::ten(k as nat);
            let u = vstd::arithmetic::power2::pow2(1074);
            integer_is_sound(negative, dg, k as nat);
            assert((dg * tk) * crate::decimal::ten(0) * u == dg * tk * u) by (nonlinear_arith)
                requires
                    crate::decimal::ten(0) == 1,
            ;
            sound_text_denotes(pos, negative, dg * tk, 0);
        } else {
            fraction_is_sound(negative, dg, k);
            sound_text_denotes(pos, negative, dg, k);
        }
    }
}

/// A written string denotes itself.
pub proof fn string_denotes(s: Seq<char>)
    ensures
        denotes(crate::json::escaped(s), crate::json::JsonView::Str(s)),
{
    reveal(denotes);
    let t = crate::json::escaped(s);
    let e = encode_utf8(t);
    first_byte(t);
    assert forall|b: Seq<u8>, i: int|
        0 <= i && crate::json::stands_at(b, i, e) && ends(b, i + e.len()) implies (
    #[trigger] crate::json::value_at(b, i)) == Ok::<(crate::json::JsonView, int), Seq<char>>(
        (crate::json::JsonView::Str(s), i + e.len()),
    ) by {
        assert(b.subrange(i, i + e.len())[0] == b[i]);
        string_reads_back(b, i, s);
    }
}

/// The three literals denote their values.
pub proof fn literals_denote()
    ensures
        denotes("null"@, crate::json::JsonView::Null),
        denotes("true"@, crate::json::JsonView::Bool(true)),
        denotes("false"@, crate::json::JsonView::Bool(false)),
{
    reveal_strlit("null");
    reveal_strlit("true");
    reveal_strlit("false");
    assert(bytes_of("null"@) =~= crate::json::null_bytes());
    assert(bytes_of("true"@) =~= crate::json::true_bytes());
    assert(bytes_of("false"@) =~= crate::json::false_bytes());
    literal_denotes("null"@, crate::json::null_bytes(), crate::json::JsonView::Null);
    literal_denotes("true"@, crate::json::true_bytes(), crate::json::JsonView::Bool(true));
    literal_denotes("false"@, crate::json::false_bytes(), crate::json::JsonView::Bool(false));
}

proof fn literal_denotes(t: Seq<char>, lit: Seq<u8>, v: crate::json::JsonView)
    requires
        is_ascii_chars(t),
        bytes_of(t) == lit,
        (lit, v) == (crate::json::null_bytes(), crate::json::JsonView::Null) || (lit, v) == (
            crate::json::true_bytes(),
            crate::json::JsonView::Bool(true),
        ) || (lit, v) == (crate::json::false_bytes(), crate::json::JsonView::Bool(false)),
    ensures
        denotes(t, v),
{
    reveal(denotes);
    let e = encode_utf8(t);
    ascii_encoding(t);
    assert(e =~= lit);
    assert forall|b: Seq<u8>, i: int|
        0 <= i && crate::json::stands_at(b, i, e) && ends(b, i + e.len()) implies (
    #[trigger] crate::json::value_at(b, i)) == Ok::<(crate::json::JsonView, int), Seq<char>>(
        (v, i + e.len()),
    ) by {
        assert(b.subrange(i, i + e.len())[0] == b[i]);
    }
}

// ── arrays and objects ──

/// Texts separated by commas.
pub open spec fn listed(texts: Seq<Seq<char>>) -> Seq<char>
    decreases texts.len(),
{
    if texts.len() == 0 {
        Seq::empty()
    } else if texts.len() == 1 {
        texts[0]
    } else {
        texts[0] + (seq![','] + listed(texts.drop_first()))
    }
}

/// Each text denotes the value at its place.
pub open spec fn all_denote(texts: Seq<Seq<char>>, values: Seq<crate::json::JsonView>) -> bool {
    texts.len() == values.len() && forall|k: int|
        0 <= k < texts.len() ==> denotes(#[trigger] texts[k], values[k])
}

/// The text of a member, given the text of its value.
pub open spec fn entry(key: Seq<char>, t: Seq<char>) -> Seq<char> {
    crate::json::escaped(key) + seq![':'] + t
}

/// The texts of members.
pub open spec fn entries(keys: Seq<Seq<char>>, texts: Seq<Seq<char>>) -> Seq<Seq<char>> {
    Seq::new(texts.len(), |k: int| entry(keys[k], texts[k]))
}

/// Keys with their values.
pub open spec fn members(keys: Seq<Seq<char>>, values: Seq<crate::json::JsonView>) -> Seq<
    (Seq<char>, crate::json::JsonView),
> {
    Seq::new(values.len(), |k: int| (keys[k], values[k]))
}

proof fn items_are_read(
    b: Seq<u8>,
    i: int,
    texts: Seq<Seq<char>>,
    values: Seq<crate::json::JsonView>,
)
    requires
        0 <= i,
        texts.len() > 0,
        all_denote(texts, values),
        crate::json::stands_at(b, i, encode_utf8(listed(texts))),
        crate::json::holds_at(b, i + encode_utf8(listed(texts)).len(), ']'),
    ensures
        crate::json::items_at(b, i) == Ok::<(Seq<crate::json::JsonView>, int), Seq<char>>(
            (values, i + encode_utf8(listed(texts)).len() + 1),
        ),
        encode_utf8(listed(texts)).len() > 0,
        encode_utf8(listed(texts))[0] == encode_utf8(texts[0])[0],
    decreases texts.len(),
{
    reveal(denotes);
    let v = values[0];
    let e = encode_utf8(texts[0]);
    assert(denotes(texts[0], v));
    if texts.len() == 1 {
        assert(b.subrange(i, i + e.len())[0] == b[i]);
        assert(crate::json::value_at(b, i) == Ok::<(crate::json::JsonView, int), Seq<char>>(
            (v, i + e.len()),
        ));
        assert(values =~= seq![v]);
    } else {
        let rest = texts.drop_first();
        let more = listed(rest);
        let m = encode_utf8(more);
        crate::text::encoding_concatenates(texts[0], seq![','] + more);
        crate::text::encoding_concatenates(seq![','], more);
        let comma = encode_utf8(seq![',']);
        stands_apart(b, i, e, comma + m);
        stands_apart(b, i + e.len(), comma, m);
        byte_stands(b, i + e.len(), ',');
        assert(b.subrange(i, i + e.len())[0] == b[i]);
        assert(crate::json::value_at(b, i) == Ok::<(crate::json::JsonView, int), Seq<char>>(
            (v, i + e.len()),
        ));
        let tail = values.drop_first();
        assert forall|k: int| 0 <= k < rest.len() implies denotes(#[trigger] rest[k], tail[k]) by {
            assert(rest[k] == texts[k + 1]);
        }
        items_are_read(b, i + e.len() + 1, rest, tail);
        assert(seq![v] + tail =~= values);
    }
}

/// Texts of values in brackets denote the array of the values.
pub proof fn array_denotes(texts: Seq<Seq<char>>, values: Seq<crate::json::JsonView>)
    requires
        all_denote(texts, values),
    ensures
        denotes(seq!['['] + listed(texts) + seq![']'], crate::json::JsonView::Arr(values)),
{
    reveal(denotes);
    let t = seq!['['] + listed(texts) + seq![']'];
    let all = encode_utf8(t);
    let open = encode_utf8(seq!['[']);
    let mid = encode_utf8(listed(texts));
    let close = encode_utf8(seq![']']);
    crate::text::encoding_concatenates(seq!['['] + listed(texts), seq![']']);
    crate::text::encoding_concatenates(seq!['['], listed(texts));
    assert(all =~= open + (mid + close));
    first_byte(t);
    assert forall|b: Seq<u8>, i: int|
        0 <= i && crate::json::stands_at(b, i, all) && ends(b, i + all.len()) implies (
    #[trigger] crate::json::value_at(b, i)) == Ok::<(crate::json::JsonView, int), Seq<char>>(
        (crate::json::JsonView::Arr(values), i + all.len()),
    ) by {
        stands_apart(b, i, open, mid + close);
        byte_stands(b, i, '[');
        stands_apart(b, i + 1, mid, close);
        byte_stands(b, i + 1 + mid.len(), ']');
        if texts.len() == 0 {
            assert(values =~= Seq::empty());
            assert(mid.len() == 0);
        } else {
            items_are_read(b, i + 1, texts, values);
            assert(denotes(texts[0], values[0]));
            assert(b.subrange(i + 1, i + 1 + mid.len())[0] == b[i + 1]);
        }
    }
}

proof fn members_are_read(
    b: Seq<u8>,
    i: int,
    keys: Seq<Seq<char>>,
    texts: Seq<Seq<char>>,
    values: Seq<crate::json::JsonView>,
)
    requires
        0 <= i,
        texts.len() > 0,
        keys.len() == texts.len(),
        all_denote(texts, values),
        crate::json::stands_at(b, i, encode_utf8(listed(entries(keys, texts)))),
        crate::json::holds_at(b, i + encode_utf8(listed(entries(keys, texts))).len(), '}'),
    ensures
        crate::json::members_at(b, i) == Ok::<
            (Seq<(Seq<char>, crate::json::JsonView)>, int),
            Seq<char>,
        >((members(keys, values), i + encode_utf8(listed(entries(keys, texts))).len() + 1)),
        encode_utf8(listed(entries(keys, texts))).len() > 0,
        encode_utf8(listed(entries(keys, texts)))[0] == '"' as u8,
    decreases texts.len(),
{
    reveal(denotes);
    let all = entries(keys, texts);
    let key = keys[0];
    let v = values[0];
    let text = entry(key, texts[0]);
    let e = encode_utf8(text);
    assert(all[0] == text);
    assert(denotes(texts[0], v));
    let k = encode_utf8(crate::json::escaped(key));
    let colon = encode_utf8(seq![':']);
    let d = encode_utf8(texts[0]);
    crate::text::encoding_concatenates(crate::json::escaped(key) + seq![':'], texts[0]);
    crate::text::encoding_concatenates(crate::json::escaped(key), seq![':']);
    assert(k + colon + d =~= k + (colon + d));
    first_byte(listed(all));
    let rest = all.drop_first();
    if texts.len() > 1 {
        let more = listed(rest);
        let m = encode_utf8(more);
        let comma = encode_utf8(seq![',']);
        crate::text::encoding_concatenates(text, seq![','] + more);
        crate::text::encoding_concatenates(seq![','], more);
        stands_apart(b, i, e, comma + m);
        stands_apart(b, i + e.len(), comma, m);
        byte_stands(b, i + e.len(), ',');
    }
    stands_apart(b, i, k, colon + d);
    stands_apart(b, i + k.len(), colon, d);
    byte_stands(b, i + k.len(), ':');
    string_reads_back(b, i, key);
    let start = i + k.len() + 1;
    assert(b.subrange(start, start + d.len())[0] == b[start]);
    assert(crate::json::value_at(b, start) == Ok::<(crate::json::JsonView, int), Seq<char>>(
        (v, start + d.len()),
    ));
    if texts.len() == 1 {
        assert(members(keys, values) =~= seq![(key, v)]);
    } else {
        let tail = values.drop_first();
        assert(rest =~= entries(keys.drop_first(), texts.drop_first()));
        assert forall|n: int| 0 <= n < tail.len() implies denotes(
            #[trigger] texts.drop_first()[n],
            tail[n],
        ) by {
            assert(texts.drop_first()[n] == texts[n + 1]);
        }
        members_are_read(b, i + e.len() + 1, keys.drop_first(), texts.drop_first(), tail);
        assert(seq![(key, v)] + members(keys.drop_first(), tail) =~= members(keys, values));
    }
}

/// Texts of members in braces denote the object of the members.
pub proof fn object_denotes(
    keys: Seq<Seq<char>>,
    texts: Seq<Seq<char>>,
    values: Seq<crate::json::JsonView>,
)
    requires
        keys.len() == texts.len(),
        all_denote(texts, values),
    ensures
        denotes(
            seq!['{'] + listed(entries(keys, texts)) + seq!['}'],
            crate::json::JsonView::Obj(members(keys, values)),
        ),
{
    reveal(denotes);
    let inner = listed(entries(keys, texts));
    let t = seq!['{'] + inner + seq!['}'];
    let all = encode_utf8(t);
    let open = encode_utf8(seq!['{']);
    let mid = encode_utf8(inner);
    let close = encode_utf8(seq!['}']);
    crate::text::encoding_concatenates(seq!['{'] + inner, seq!['}']);
    crate::text::encoding_concatenates(seq!['{'], inner);
    assert(all =~= open + (mid + close));
    first_byte(t);
    assert forall|b: Seq<u8>, i: int|
        0 <= i && crate::json::stands_at(b, i, all) && ends(b, i + all.len()) implies (
    #[trigger] crate::json::value_at(b, i)) == Ok::<(crate::json::JsonView, int), Seq<char>>(
        (crate::json::JsonView::Obj(members(keys, values)), i + all.len()),
    ) by {
        stands_apart(b, i, open, mid + close);
        byte_stands(b, i, '{');
        stands_apart(b, i + 1, mid, close);
        byte_stands(b, i + 1 + mid.len(), '}');
        if texts.len() == 0 {
            assert(members(keys, values) =~= Seq::empty());
            assert(mid.len() == 0);
        } else {
            members_are_read(b, i + 1, keys, texts, values);
            assert(b.subrange(i + 1, i + 1 + mid.len())[0] == b[i + 1]);
        }
    }
}

/// The keys of members.
pub open spec fn keys_of(pairs: Seq<(Seq<char>, crate::json::JsonView)>) -> Seq<Seq<char>> {
    Seq::new(pairs.len(), |k: int| pairs[k].0)
}

/// The values of members.
pub open spec fn values_of(pairs: Seq<(Seq<char>, crate::json::JsonView)>) -> Seq<
    crate::json::JsonView,
> {
    Seq::new(pairs.len(), |k: int| pairs[k].1)
}

/// The inside of an object: the texts of its members, separated by commas.
#[verifier::opaque]
pub open spec fn inside(t: Seq<char>, pairs: Seq<(Seq<char>, crate::json::JsonView)>) -> bool {
    exists|texts: Seq<Seq<char>>|
        pairs.len() > 0 && all_denote(texts, values_of(pairs)) && t == listed(
            #[trigger] entries(keys_of(pairs), texts),
        )
}

/// One member is the inside of an object.
pub proof fn one_member(key: Seq<char>, t: Seq<char>, v: crate::json::JsonView)
    requires
        denotes(t, v),
    ensures
        inside(entry(key, t), seq![(key, v)]),
{
    reveal(inside);
    let pairs = seq![(key, v)];
    let keys = keys_of(pairs);
    let values = values_of(pairs);
    let texts = seq![t];
    assert(all_denote(texts, values));
    assert(entries(keys, texts)[0] == entry(key, t));
    assert(listed(entries(keys, texts)) == entry(key, t));
}

/// A member before others is the inside of an object.
pub proof fn one_more_member(
    key: Seq<char>,
    t: Seq<char>,
    v: crate::json::JsonView,
    rest: Seq<char>,
    others: Seq<(Seq<char>, crate::json::JsonView)>,
)
    requires
        denotes(t, v),
        inside(rest, others),
    ensures
        inside(entry(key, t) + (seq![','] + rest), seq![(key, v)] + others),
{
    reveal(inside);
    let old_keys = keys_of(others);
    let old_values = values_of(others);
    let old_texts = choose|texts: Seq<Seq<char>>|
        others.len() > 0 && all_denote(texts, values_of(others)) && rest == listed(
            #[trigger] entries(keys_of(others), texts),
        );
    let pairs = seq![(key, v)] + others;
    let keys = keys_of(pairs);
    let values = values_of(pairs);
    let texts = seq![t] + old_texts;
    assert forall|k: int| 0 <= k < texts.len() implies denotes(#[trigger] texts[k], values[k]) by {
        if k > 0 {
            assert(texts[k] == old_texts[k - 1]);
            assert(values[k] == old_values[k - 1]);
        }
    }
    let all = entries(keys, texts);
    assert(all.drop_first() =~= entries(old_keys, old_texts));
    assert(all[0] == entry(key, t));
    assert(listed(all) == entry(key, t) + (seq![','] + rest));
}

/// The inside of an object, in braces, denotes the object.
pub proof fn closed_object_denotes(t: Seq<char>, pairs: Seq<(Seq<char>, crate::json::JsonView)>)
    requires
        inside(t, pairs),
    ensures
        denotes(seq!['{'] + t + seq!['}'], crate::json::JsonView::Obj(pairs)),
{
    reveal(inside);
    let keys = keys_of(pairs);
    let values = values_of(pairs);
    let texts = choose|texts: Seq<Seq<char>>|
        pairs.len() > 0 && all_denote(texts, values_of(pairs)) && t == listed(
            #[trigger] entries(keys_of(pairs), texts),
        );
    object_denotes(keys, texts, values);
    assert(members(keys, values) =~= pairs);
}

// ── whole values ──

/// The compact texts of values.
spec fn dumps(items: Seq<crate::json::JsonView>) -> Seq<Seq<char>> {
    Seq::new(items.len(), |k: int| items[k].dumped())
}

proof fn listed_grows(texts: Seq<Seq<char>>, t: Seq<char>)
    requires
        texts.len() > 0,
    ensures
        listed(texts.push(t)) == listed(texts) + seq![','] + t,
    decreases texts.len(),
{
    let all = texts.push(t);
    if texts.len() == 1 {
        assert(all.drop_first() =~= seq![t]);
        assert(listed(seq![t]) == t);
        assert(listed(texts) == texts[0]);
        assert(all[0] == texts[0]);
        assert(listed(all) =~= listed(texts) + seq![','] + t);
    } else {
        assert(all.drop_first() =~= texts.drop_first().push(t));
        listed_grows(texts.drop_first(), t);
        assert(listed(all) =~= listed(texts) + seq![','] + t);
    }
}

proof fn items_are_listed(items: Seq<crate::json::JsonView>)
    ensures
        crate::json::dumped_items(items) == listed(dumps(items)),
    decreases items.len(),
{
    if items.len() > 1 {
        let init = items.drop_last();
        items_are_listed(init);
        assert(dumps(items) =~= dumps(init).push(items.last().dumped()));
        listed_grows(dumps(init), items.last().dumped());
    }
}

proof fn members_are_listed(pairs: Seq<(Seq<char>, crate::json::JsonView)>)
    ensures
        crate::json::dumped_members(pairs) == listed(
            Seq::new(pairs.len(), |k: int| entry(pairs[k].0, pairs[k].1.dumped())),
        ),
    decreases pairs.len(),
{
    let texts = Seq::new(pairs.len(), |k: int| entry(pairs[k].0, pairs[k].1.dumped()));
    if pairs.len() > 1 {
        let init = pairs.drop_last();
        members_are_listed(init);
        let last = entry(pairs.last().0, pairs.last().1.dumped());
        let before = Seq::new(init.len(), |k: int| entry(init[k].0, init[k].1.dumped()));
        assert(texts =~= before.push(last));
        listed_grows(before, last);
    }
}

/// The compact text of a value with finite numbers denotes the value, but for the
/// sign of a zero.
pub proof fn dump_denotes(v: crate::json::JsonView) -> (w: crate::json::JsonView)
    requires
        plain(v),
    ensures
        unsigned_zeros(v, w),
        denotes(v.dumped(), w),
    decreases v,
{
    match v {
        crate::json::JsonView::Null => {
            literals_denote();
            v
        },
        crate::json::JsonView::Bool(x) => {
            literals_denote();
            v
        },
        crate::json::JsonView::Num(n) => {
            zeros_are_written_alike();
            number_text_reads_as(written(n));
            numeral_denotes(crate::json::number_text(written(n)), written(n));
            crate::json::JsonView::Num(written(n))
        },
        crate::json::JsonView::Str(s) => {
            string_denotes(s);
            v
        },
        crate::json::JsonView::Arr(items) => {
            let others = denoted(items);
            assert forall|k: int| 0 <= k < items.len() implies unsigned_zeros(
                #[trigger] items[k],
                others[k],
            ) && denotes(dumps(items)[k], others[k]) by {
                assert(plain(items[k]));
                let w = dump_denotes(items[k]);
                assert(stands_for(items[k], w));
            }
            assert forall|k: int| 0 <= k < items.len() implies denotes(
                #[trigger] dumps(items)[k],
                others[k],
            ) by {
                assert(unsigned_zeros(items[k], others[k]));
            }
            items_are_listed(items);
            array_denotes(dumps(items), others);
            crate::json::JsonView::Arr(others)
        },
        crate::json::JsonView::Obj(pairs) => {
            let keys = keys_of(pairs);
            let values = values_of(pairs);
            let others = denoted(values);
            assert forall|k: int| 0 <= k < pairs.len() implies unsigned_zeros(
                (#[trigger] pairs[k]).1,
                others[k],
            ) && denotes(dumps(values)[k], others[k]) by {
                assert(plain(pairs[k].1));
                let w = dump_denotes(pairs[k].1);
                assert(stands_for(values[k], w));
            }
            assert forall|k: int| 0 <= k < pairs.len() implies denotes(
                #[trigger] dumps(values)[k],
                others[k],
            ) by {
                assert(unsigned_zeros(pairs[k].1, others[k]));
            }
            members_are_listed(pairs);
            assert(entries(keys, dumps(values)) =~= Seq::new(
                pairs.len(),
                |k: int| entry(pairs[k].0, pairs[k].1.dumped()),
            ));
            object_denotes(keys, dumps(values), others);
            crate::json::JsonView::Obj(members(keys, others))
        },
    }
}

spec fn stands_for(v: crate::json::JsonView, w: crate::json::JsonView) -> bool {
    unsigned_zeros(v, w) && denotes(v.dumped(), w)
}

spec fn denoted(items: Seq<crate::json::JsonView>) -> Seq<crate::json::JsonView> {
    Seq::new(items.len(), |k: int| choose|w: crate::json::JsonView| stands_for(items[k], w))
}

/// Any string, written as JSON with any white space around it, reads back as itself.
pub proof fn strings_read_back(before: Seq<char>, s: Seq<char>, after: Seq<char>)
    requires
        blank(before),
        blank(after),
    ensures
        crate::json::parsed(encode_utf8(before + crate::json::escaped(s) + after)) == Ok::<
            crate::json::JsonView,
            Seq<char>,
        >(crate::json::JsonView::Str(s)),
{
    string_denotes(s);
    blanks_around_are_ignored(before, crate::json::escaped(s), after, crate::json::JsonView::Str(s));
}

/// Reading the compact text of a value with finite numbers, with any white space
/// around it, gives the value back, up to the sign of a zero: a negative zero comes
/// back positive.
pub proof fn dumps_read_back(before: Seq<char>, v: crate::json::JsonView, after: Seq<char>)
    requires
        plain(v),
        blank(before),
        blank(after),
    ensures
        crate::json::parsed(encode_utf8(before + v.dumped() + after)) matches Ok(w)
            && unsigned_zeros(v, w) && (without_negative_zero(v) ==> w == v),
{
    let w = dump_denotes(v);
    blanks_around_are_ignored(before, v.dumped(), after, w);
    if without_negative_zero(v) {
        nothing_to_change(v, w);
    }
}

// ── unicode escapes ──

/// The hexadecimal digits, small or capital, count from zero to fifteen.
pub proof fn hexadecimal_digits_count(k: int)
    ensures
        0 <= k < 16 ==> crate::json::hex_digit("0123456789abcdef"@[k] as u8) == Some(k as nat),
        0 <= k < 16 ==> crate::json::hex_digit("0123456789ABCDEF"@[k] as u8) == Some(k as nat),
{
    reveal_strlit("0123456789abcdef");
    reveal_strlit("0123456789ABCDEF");
}

/// Four hexadecimal digits stand for a number below 65536.
pub open spec fn spells_hex(b: Seq<u8>, i: int, n: nat) -> bool {
    &&& 0 <= i
    &&& i + 4 <= b.len()
    &&& n < 0x1_0000
    &&& crate::json::hex_digit(b[i]) == Some(n / 0x1000)
    &&& crate::json::hex_digit(b[i + 1]) == Some(n / 0x100 % 16)
    &&& crate::json::hex_digit(b[i + 2]) == Some(n / 0x10 % 16)
    &&& crate::json::hex_digit(b[i + 3]) == Some(n % 16)
}

proof fn four_digits_are_read(b: Seq<u8>, i: int, n: nat)
    requires
        spells_hex(b, i, n),
    ensures
        crate::json::hex4_at(b, i) == Ok::<(nat, int), Seq<char>>((n, i + 4)),
{
    let s = b.subrange(i, i + 4);
    let t = Seq::new(4, |k: int| s[k] as char);
    assert(s[0] == b[i] && s[1] == b[i + 1] && s[2] == b[i + 2] && s[3] == b[i + 3]);
    assert(is_ascii_chars(t));
    ascii_encoding(t);
    assert(encode_utf8(t) =~= s);
    encode_utf8_valid_utf8(t);
    let s3 = s.drop_last();
    let s2 = s3.drop_last();
    let s1 = s2.drop_last();
    assert(s1.drop_last() =~= Seq::empty());
    assert(crate::json::hex_value(s1.drop_last()) == Some(0nat));
    assert(crate::json::hex_value(s1) == Some(n / 0x1000));
    assert(crate::json::hex_value(s2) == Some(n / 0x100));
    assert(crate::json::hex_value(s3) == Some(n / 0x10));
    assert(crate::json::hex_value(s) == Some(n));
}

/// An escape names a character by the number of its code point.
pub proof fn escapes_name_code_points(b: Seq<u8>, i: int, c: char)
    requires
        (c as u32) < 0x1_0000,
        spells_hex(b, i, c as nat),
    ensures
        crate::json::unicode_at(b, i) == Ok::<(Seq<char>, int), Seq<char>>((seq![c], i + 4)),
{
    four_digits_are_read(b, i, c as nat);
}

/// A character beyond 65535 is named by two escapes: the upper and the lower ten bits of
/// what is left without the first 65536.
pub proof fn surrogates_name_the_rest(b: Seq<u8>, i: int, c: char)
    requires
        (c as u32) >= 0x1_0000,
        spells_hex(b, i, (0xd800 + (c as u32 - 0x1_0000) / 0x400) as nat),
        i + 10 <= b.len(),
        b[i + 4] == '\\' as u8,
        b[i + 5] == 'u' as u8,
        spells_hex(b, i + 6, (0xdc00 + (c as u32 - 0x1_0000) % 0x400) as nat),
    ensures
        crate::json::unicode_at(b, i) == Ok::<(Seq<char>, int), Seq<char>>((seq![c], i + 10)),
{
    let rest = (c as u32 - 0x1_0000) as nat;
    let hi = 0xd800 + rest / 0x400;
    let lo = 0xdc00 + rest % 0x400;
    four_digits_are_read(b, i, hi);
    four_digits_are_read(b, i + 6, lo);
    let mark = seq!['\\' as u8, 'u' as u8];
    assert(b.subrange(i + 4, i + 6) =~= mark);
    assert(0x1_0000 + (hi - 0xd800) * 0x400 + (lo - 0xdc00) == c as u32);
}

/// The short escapes name their characters.
pub proof fn short_escapes_name_their_characters(b: Seq<u8>, i: int)
    requires
        0 <= i < b.len(),
    ensures
        b[i] == 'n' as u8 ==> crate::json::escape_at(b, i) == Ok::<(Seq<char>, int), Seq<char>>(
            (seq!['\n'], i + 1),
        ),
        b[i] == 'r' as u8 ==> crate::json::escape_at(b, i) == Ok::<(Seq<char>, int), Seq<char>>(
            (seq!['\r'], i + 1),
        ),
        b[i] == 't' as u8 ==> crate::json::escape_at(b, i) == Ok::<(Seq<char>, int), Seq<char>>(
            (seq!['\t'], i + 1),
        ),
        b[i] == '/' as u8 ==> crate::json::escape_at(b, i) == Ok::<(Seq<char>, int), Seq<char>>(
            (seq!['/'], i + 1),
        ),
{
}

} // verus!
