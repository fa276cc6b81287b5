//! The keys of the version table: the versions of one secret are neighbours, in ascending order.

use vstd::prelude::*;
use vstd::utf8::*;
use crate::order::{
    bytes_precede, lemma_bytes_skip, lemma_encoding_concat, lemma_encoding_prefix, text_precedes,
};
use crate::text::{
    all_digits, decimal, digits, format_padded, has_prefix, is_digit, lemma_decimal_chars,
    lemma_digits, number, padded, push_str, zeros,
};
use super::table::within;

verus! {

/// The key of one version of a secret: its name, a NUL and the version number in ten digits.
pub open spec fn key_of(name: Seq<char>, version: int) -> Seq<char> {
    name + seq!['\0'] + padded(version, 10)
}

/// The least text that starts with `name` and a NUL.
pub open spec fn lower_of(name: Seq<char>) -> Seq<char> {
    name.push('\0')
}

/// The least text behind all that start with `name` and a NUL.
pub open spec fn upper_of(name: Seq<char>) -> Seq<char> {
    name.push('\u{1}')
}

/// Whether a key of the version table belongs to the secret `name`.
pub open spec fn belongs_to(key: Seq<char>, name: Seq<char>) -> bool {
    has_prefix(key, lower_of(name))
}

pub fn version_key(name: &str, version: i32) -> (r: String)
    ensures
        r@ == key_of(name@, version as int),
{
    let mut key = version_lower(name);
    let number = format_padded(version as i64, 10);
    push_str(&mut key, number.as_str());
    assert(key@ =~= key_of(name@, version as int));
    key
}

pub fn version_lower(name: &str) -> (r: String)
    ensures
        r@ == lower_of(name@),
{
    let mut key = String::new();
    push_str(&mut key, name);
    key.push('\0');
    assert(key@ =~= lower_of(name@));
    key
}

pub fn version_upper(name: &str) -> (r: String)
    ensures
        r@ == upper_of(name@),
{
    let mut key = String::new();
    push_str(&mut key, name);
    key.push('\u{1}');
    assert(key@ =~= upper_of(name@));
    key
}

/// Between `head 0` and `head 1` lies exactly what starts with `head 0`.
proof fn lemma_bytes_between(bytes: Seq<u8>, head: Seq<u8>)
    ensures
        (!bytes_precede(bytes, head.push(0)) && bytes_precede(bytes, head.push(1)))
            <==> head.push(0).is_prefix_of(bytes),
    decreases head.len(),
{
    let low = head.push(0);
    let high = head.push(1);
    reveal_with_fuel(bytes_precede, 2);
    if head.len() == 0 {
        assert(low =~= seq![0u8]);
        assert(high =~= seq![1u8]);
        assert(low.skip(1) =~= Seq::<u8>::empty());
        assert(high.skip(1) =~= Seq::<u8>::empty());
        if bytes.len() > 0 {
            assert(low.is_prefix_of(bytes) <==> bytes[0] == 0) by {
                if bytes[0] == 0 {
                    assert(low =~= bytes.subrange(0, 1));
                } else if low.is_prefix_of(bytes) {
                    assert(low[0] == bytes.subrange(0, 1)[0]);
                }
            }
        }
    } else if bytes.len() > 0 {
        if bytes[0] == head[0] {
            lemma_bytes_between(bytes.skip(1), head.skip(1));
            assert(low.skip(1) =~= head.skip(1).push(0));
            assert(high.skip(1) =~= head.skip(1).push(1));
            assert(low.is_prefix_of(bytes) <==> low.skip(1).is_prefix_of(bytes.skip(1))) by {
                if low.is_prefix_of(bytes) {
                    assert(low =~= bytes.subrange(0, low.len() as int));
                    assert(low.skip(1) =~= bytes.skip(1).subrange(0, low.len() - 1));
                }
                if low.skip(1).is_prefix_of(bytes.skip(1)) {
                    assert(low.skip(1) =~= bytes.skip(1).subrange(0, low.len() - 1));
                    assert forall|i: int| 0 <= i < low.len() implies low[i] == bytes[i] by {
                        if i > 0 {
                            assert(low.skip(1)[i - 1] == bytes.skip(1).subrange(
                                0,
                                low.len() - 1,
                            )[i - 1]);
                        }
                    }
                    assert(low =~= bytes.subrange(0, low.len() as int));
                }
            }
        } else {
            assert(!low.is_prefix_of(bytes)) by {
                if low.is_prefix_of(bytes) {
                    assert(low[0] == bytes.subrange(0, low.len() as int)[0]);
                }
            }
        }
    }
}

proof fn lemma_encoding_of_small(c: char)
    requires
        (c as u32) < 0x80,
    ensures
        encode_utf8(seq![c]) == seq![c as u8],
{
    reveal_with_fuel(encode_utf8, 2);
    let u = c as u32;
    assert(u < 0x80 ==> (u & 0x7F) as u8 == u as u8) by (bit_vector);
    assert(seq![c].drop_first() =~= Seq::<char>::empty());
    assert(encode_utf8(seq![c]) =~= seq![c as u8]);
}

/// The rows from `lower_of(name)` up to `upper_of(name)` are exactly the rows that belong to
/// `name`.
pub proof fn law_range_is_prefix(key: Seq<char>, name: Seq<char>)
    ensures
        within::<String>(key, lower_of(name), upper_of(name)) <==> belongs_to(key, name),
{
    let head = encode_utf8(name);
    lemma_encoding_of_small('\0');
    lemma_encoding_of_small('\u{1}');
    lemma_encoding_concat(name, seq!['\0']);
    lemma_encoding_concat(name, seq!['\u{1}']);
    assert(name + seq!['\0'] =~= lower_of(name));
    assert(name + seq!['\u{1}'] =~= upper_of(name));
    assert(encode_utf8(lower_of(name)) =~= head.push(0));
    assert(encode_utf8(upper_of(name)) =~= head.push(1));
    lemma_bytes_between(encode_utf8(key), head);
    if head.push(0).is_prefix_of(encode_utf8(key)) {
        lemma_encoding_prefix(key, lower_of(name));
        assert(key.take(lower_of(name).len() as int) =~= lower_of(name));
    }
    if belongs_to(key, name) {
        let n = lower_of(name).len() as int;
        assert(key =~= lower_of(name) + key.skip(n));
        lemma_encoding_concat(lower_of(name), key.skip(n));
        assert(encode_utf8(key).subrange(0, head.len() as int + 1) =~= head.push(0));
    }
}

/// Whether a name holds no NUL: every name that the service accepts.
pub open spec fn nul_free(name: Seq<char>) -> bool {
    !name.contains('\0')
}

proof fn lemma_padded_chars(i: int, width: int)
    ensures
        forall|k: int|
            0 <= k < padded(i, width).len() ==> is_digit(#[trigger] padded(i, width)[k])
                || padded(i, width)[k] == '-',
{
    lemma_digits(if i < 0 { (-i) as nat } else { i as nat });
}

/// The key of a version belongs to the secret of that name, and among names without a NUL to no
/// other secret.
pub proof fn law_key_belongs(name: Seq<char>, version: int, other: Seq<char>)
    requires
        nul_free(name),
        nul_free(other),
    ensures
        belongs_to(key_of(name, version), other) <==> name == other,
{
    let key = key_of(name, version);
    let tail = padded(version, 10);
    lemma_padded_chars(version, 10);
    assert(key.take(lower_of(name).len() as int) =~= lower_of(name));
    if belongs_to(key, other) {
        let head = key.take(lower_of(other).len() as int);
        assert(head[other.len() as int] == '\0');
        if other.len() < name.len() {
            assert(key[other.len() as int] == name[other.len() as int]);
            assert(name.contains('\0'));
        } else if other.len() > name.len() {
            assert(head[name.len() as int] == '\0');
            assert(lower_of(other)[name.len() as int] == other[name.len() as int]);
            assert(other.contains('\0'));
        }
        assert(name =~= key.take(name.len() as int));
        assert(other =~= head.take(other.len() as int));
        assert(name =~= other);
    }
}

/// Removing the zeros in front of the digits of a padded number gives the number back, so padding
/// keeps numbers apart.
proof fn lemma_padded_injective(a: int, b: int, width: int)
    requires
        padded(a, width) == padded(b, width),
    ensures
        a == b,
{
    let x = if a < 0 { (-a) as nat } else { a as nat };
    let y = if b < 0 { (-b) as nat } else { b as nat };
    lemma_digits(x);
    lemma_digits(y);
    lemma_decimal_chars(a);
    lemma_decimal_chars(b);
    let p = zeros(width - decimal(a).len());
    let q = zeros(width - decimal(b).len());
    lemma_zeros_number(p, digits(x));
    lemma_zeros_number(q, digits(y));
    if a < 0 {
        assert(padded(a, width)[0] == '-');
        if b >= 0 {
            assert(padded(b, width)[0] == (q + digits(y))[0]);
            assert(q.len() > 0 ==> (q + digits(y))[0] == '0');
        } else {
            assert(padded(a, width).skip(1) =~= p + digits(x));
            assert(padded(b, width).skip(1) =~= q + digits(y));
        }
    } else if b < 0 {
        assert(padded(b, width)[0] == '-');
        assert(padded(a, width)[0] == (p + digits(x))[0]);
        assert(p.len() > 0 ==> (p + digits(x))[0] == '0');
    } else {
        assert(padded(a, width) =~= p + digits(x));
        assert(padded(b, width) =~= q + digits(y));
    }
}

proof fn lemma_zeros_number(p: Seq<char>, text: Seq<char>)
    requires
        forall|i: int| 0 <= i < p.len() ==> p[i] == '0',
    ensures
        number(p + text) == number(text),
    decreases p.len() + text.len(),
{
    reveal_with_fuel(number, 2);
    if text.len() > 0 {
        lemma_zeros_number(p, text.drop_last());
        assert((p + text).drop_last() =~= p + text.drop_last());
    } else if p.len() > 0 {
        lemma_zeros_number(p.drop_last(), text);
        assert((p + text).drop_last() =~= p.drop_last() + text);
        assert((p + text).last() == '0');
    } else {
        assert(p + text =~= text);
    }
}

/// Different versions, and different names without a NUL, have different keys.
pub proof fn law_key_injective(a: Seq<char>, m: int, b: Seq<char>, n: int)
    requires
        nul_free(a),
        nul_free(b),
        key_of(a, m) == key_of(b, n),
    ensures
        a == b,
        m == n,
{
    law_key_belongs(a, m, a);
    law_key_belongs(b, n, a);
    assert(padded(m, 10) =~= key_of(a, m).skip(a.len() as int + 1));
    assert(padded(n, 10) =~= key_of(b, n).skip(b.len() as int + 1));
    lemma_padded_injective(m, n, 10);
}

/// Ten to the power of `k`.
spec fn ten_to(k: nat) -> nat
    decreases k,
{
    if k == 0 {
        1
    } else {
        10 * ten_to((k - 1) as nat)
    }
}

proof fn lemma_digits_len(n: nat, k: nat)
    requires
        k >= 1,
        n < ten_to(k),
    ensures
        digits(n).len() <= k,
    decreases k,
{
    if n >= 10 {
        if k == 1 {
            reveal_with_fuel(ten_to, 2);
        } else {
            lemma_digits_len(n / 10, (k - 1) as nat);
        }
    }
}

proof fn lemma_number_unique(a: Seq<char>, b: Seq<char>)
    requires
        a.len() == b.len(),
        all_digits(a),
        all_digits(b),
        number(a) == number(b),
    ensures
        a == b,
    decreases a.len(),
{
    if a.len() > 0 {
        let x = a.drop_last();
        let y = b.drop_last();
        assert(is_digit(a[a.len() - 1]) && is_digit(b[b.len() - 1]));
        assert forall|i: int| 0 <= i < x.len() implies is_digit(#[trigger] x[i]) by {
            assert(x[i] == a[i]);
        }
        assert forall|i: int| 0 <= i < y.len() implies is_digit(#[trigger] y[i]) by {
            assert(y[i] == b[i]);
        }
        lemma_number_unique(x, y);
        assert(a =~= x.push(a.last()));
        assert(b =~= y.push(b.last()));
    } else {
        assert(a =~= b);
    }
}

/// Appending to two byte strings of one length keeps their order.
proof fn lemma_precede_extend(a: Seq<u8>, b: Seq<u8>, x: u8, y: u8)
    requires
        a.len() == b.len(),
        bytes_precede(a, b),
    ensures
        bytes_precede(a.push(x), b.push(y)),
    decreases a.len(),
{
    if a.len() > 0 && a[0] == b[0] {
        lemma_precede_extend(a.skip(1), b.skip(1), x, y);
        assert(a.push(x).skip(1) =~= a.skip(1).push(x));
        assert(b.push(y).skip(1) =~= b.skip(1).push(y));
    }
}

/// The bytes of a string of digits.
spec fn digit_bytes(text: Seq<char>) -> Seq<u8> {
    Seq::new(text.len(), |i: int| text[i] as u8)
}

/// Strings of as many digits compare as the numbers they denote.
proof fn lemma_digits_order(a: Seq<char>, b: Seq<char>)
    requires
        a.len() == b.len(),
        all_digits(a),
        all_digits(b),
        number(a) < number(b),
    ensures
        bytes_precede(digit_bytes(a), digit_bytes(b)),
    decreases a.len(),
{
    if a.len() > 0 {
        let x = a.drop_last();
        let y = b.drop_last();
        assert(is_digit(a[a.len() - 1]) && is_digit(b[b.len() - 1]));
        assert forall|i: int| 0 <= i < x.len() implies is_digit(#[trigger] x[i]) by {
            assert(x[i] == a[i]);
        }
        assert forall|i: int| 0 <= i < y.len() implies is_digit(#[trigger] y[i]) by {
            assert(y[i] == b[i]);
        }
        assert(digit_bytes(a) =~= digit_bytes(x).push(a.last() as u8));
        assert(digit_bytes(b) =~= digit_bytes(y).push(b.last() as u8));
        if number(x) < number(y) {
            lemma_digits_order(x, y);
            lemma_precede_extend(digit_bytes(x), digit_bytes(y), a.last() as u8, b.last() as u8);
        } else {
            assert(number(x) == number(y));
            lemma_number_unique(x, y);
            let n = x.len() as int;
            let p = digit_bytes(a);
            let q = digit_bytes(b);
            assert forall|j: int| 0 <= j < n implies p[j] == q[j] by {
                assert(a[j] == x[j] && b[j] == y[j]);
            }
            lemma_bytes_skip(p, q, n);
            assert(p.skip(n)[0] < q.skip(n)[0]);
        }
    }
}

/// The versions of one secret stand in the table in the order of their numbers.
pub proof fn law_versions_in_order(name: Seq<char>, earlier: int, later: int)
    requires
        0 <= earlier < later <= i32::MAX,
    ensures
        text_precedes(key_of(name, earlier), key_of(name, later)),
{
    let a = padded(earlier, 10);
    let b = padded(later, 10);
    assert(ten_to(10) == 10_000_000_000) by {
        reveal_with_fuel(ten_to, 11);
    }
    lemma_digits_len(earlier as nat, 10);
    lemma_digits_len(later as nat, 10);
    lemma_digits(earlier as nat);
    lemma_digits(later as nat);
    let p = zeros(10 - decimal(earlier).len());
    let q = zeros(10 - decimal(later).len());
    lemma_zeros_number(p, digits(earlier as nat));
    lemma_zeros_number(q, digits(later as nat));
    assert forall|i: int| 0 <= i < a.len() implies is_digit(#[trigger] a[i]) by {
        if i >= p.len() {
            assert(a[i] == digits(earlier as nat)[i - p.len()]);
        }
    }
    assert forall|i: int| 0 <= i < b.len() implies is_digit(#[trigger] b[i]) by {
        if i >= q.len() {
            assert(b[i] == digits(later as nat)[i - q.len()]);
        }
    }
    lemma_digits_order(a, b);
    assert(encode_utf8(a) =~= digit_bytes(a)) by {
        assert(is_ascii_chars(a));
        is_ascii_chars_encode_utf8(a);
    }
    assert(encode_utf8(b) =~= digit_bytes(b)) by {
        assert(is_ascii_chars(b));
        is_ascii_chars_encode_utf8(b);
    }
    let head = name + seq!['\0'];
    lemma_encoding_concat(head, a);
    lemma_encoding_concat(head, b);
    let x = encode_utf8(head + a);
    let y = encode_utf8(head + b);
    let n = encode_utf8(head).len() as int;
    lemma_bytes_skip(x, y, n);
    assert(x.skip(n) =~= digit_bytes(a));
    assert(y.skip(n) =~= digit_bytes(b));
}

} // verus!
