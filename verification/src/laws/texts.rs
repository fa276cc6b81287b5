//! What text is read as: numbers, pieces, addresses, settings.

use vstd::prelude::*;
use crate::config::{
    config_of, cut, lookup, lower_case, or_default, peer_of, peers_of, ConfigView, Env, KmsMode,
};
use crate::ip_allowlist::{
    admits, cidr_of, covers, entries_parsed, entry_net, ipv4_of, octet, Ipv4, Net,
};
use crate::pg_apply::{before_last_colon, connection_of, port_or_default};
use crate::service::{batch_refusal, context_of};
use crate::startup::{after_last_colon};
use crate::supervisor::database_of;
use crate::text::{
    all_digits, decimal, digit_char, digit_value, digits, is_digit, is_white_space, lemma_digits,
    lemma_split_by_nonempty, number, parsed_i64, parsed_unsigned, split_by, trimmed, trimmed_end,
    trimmed_start, unsigned_digits,
};

verus! {

/// A number is read back from its decimal text, with or without a plus sign, exactly where it is
/// not above the greatest allowed.
pub proof fn law_number_reads_back(n: nat, max: nat)
    ensures
        parsed_unsigned(decimal(n as int), max) == if n <= max {
            Some(n)
        } else {
            None
        },
        parsed_unsigned(seq!['+'] + decimal(n as int), max) == if n <= max {
            Some(n)
        } else {
            None
        },
{
    lemma_digits(n);
    let text = decimal(n as int);
    let signed = seq!['+'] + text;
    assert(is_digit(text[0]));
    assert(signed.skip(1) =~= text);
}

/// A signed number is read back from its decimal text.
pub proof fn law_signed_number_reads_back(i: i64)
    ensures
        parsed_i64(decimal(i as int)) == Some(i as int),
{
    let text = decimal(i as int);
    if i < 0 {
        lemma_digits((-i) as nat);
        assert(text.skip(1) =~= digits((-i) as nat));
    } else {
        lemma_digits(i as nat);
        assert(is_digit(text[0]));
    }
}

/// What is read as a number consists of digits, but for a plus sign, and has that value.
pub proof fn law_only_digits_are_numbers(text: Seq<char>, max: nat)
    ensures
        parsed_unsigned(text, max) matches Some(n) ==> {
            &&& n <= max
            &&& text.len() > 0
            &&& forall|i: int|
                0 < i < text.len() ==> '0' <= #[trigger] text[i] <= '9'
            &&& '0' <= text[0] <= '9' || (text[0] == '+' && text.len() > 1)
        },
{
    if parsed_unsigned(text, max) is Some {
        let body = unsigned_digits(text);
        if text[0] == '+' {
            assert forall|i: int| 0 < i < text.len() implies '0' <= #[trigger] text[i] <= '9' by {
                assert(is_digit(body[i - 1]));
            }
        } else {
            assert(is_digit(body[0]));
            assert forall|i: int| 0 < i < text.len() implies '0' <= #[trigger] text[i] <= '9' by {
                assert(is_digit(body[i]));
            }
        }
    }
}

/// Texts joined with a separator between them.
pub open spec fn joined(pieces: Seq<Seq<char>>, sep: char) -> Seq<char>
    decreases pieces.len(),
{
    if pieces.len() == 0 {
        Seq::empty()
    } else if pieces.len() == 1 {
        pieces[0]
    } else {
        joined(pieces.drop_last(), sep).push(sep) + pieces.last()
    }
}

/// Splitting is undone by joining, and no piece holds the separator.
pub proof fn law_split_pieces(text: Seq<char>, sep: char)
    ensures
        split_by(text, sep).len() >= 1,
        joined(split_by(text, sep), sep) == text,
        forall|i: int|
            0 <= i < split_by(text, sep).len() ==> !(#[trigger] split_by(text, sep)[i]).contains(
                sep,
            ),
    decreases text.len(),
{
    let pieces = split_by(text, sep);
    if text.len() > 0 {
        let front = text.drop_last();
        let before = split_by(front, sep);
        law_split_pieces(front, sep);
        assert(front.push(text.last()) =~= text);
        if text.last() == sep {
            assert(pieces.drop_last() =~= before);
            assert(joined(pieces, sep) =~= text);
        } else {
            assert(pieces.drop_last() =~= before.drop_last());
            assert(pieces.last() == before.last().push(text.last()));
            assert(joined(pieces, sep) =~= joined(before, sep).push(text.last()));
            assert forall|i: int| 0 <= i < pieces.len() implies !(#[trigger] pieces[i]).contains(
                sep,
            ) by {
                if i < before.len() - 1 {
                    assert(pieces[i] == before[i]);
                } else {
                    assert(!before[i].contains(sep));
                    assert(pieces[i] == before[i].push(text.last()));
                    assert forall|k: int| 0 <= k < pieces[i].len() implies pieces[i][k] != sep by {
                        if k < before[i].len() {
                            assert(pieces[i][k] == before[i][k]);
                        }
                    }
                }
            }
        }
    } else {
        assert(pieces[0] =~= Seq::empty());
        assert(joined(pieces, sep) =~= text);
    }
}

/// Text around a separator is split on either side of it.
proof fn lemma_split_concat(a: Seq<char>, b: Seq<char>, sep: char)
    ensures
        split_by(a.push(sep) + b, sep) == split_by(a, sep) + split_by(b, sep),
    decreases b.len(),
{
    let whole = a.push(sep) + b;
    lemma_split_by_nonempty(a, sep);
    lemma_split_by_nonempty(b, sep);
    if b.len() == 0 {
        assert(whole =~= a.push(sep));
        assert(whole.drop_last() =~= a);
        assert(split_by(whole, sep) =~= split_by(a, sep) + split_by(b, sep));
    } else {
        let front = b.drop_last();
        lemma_split_concat(a, front, sep);
        lemma_split_by_nonempty(front, sep);
        assert(whole.drop_last() =~= a.push(sep) + front);
        assert(whole.last() == b.last());
        let left = split_by(a, sep);
        let right = split_by(front, sep);
        assert((left + right).last() == right.last());
        assert((left + right).drop_last() =~= left + right.drop_last());
        assert(split_by(whole, sep) =~= left + split_by(b, sep));
    }
}

proof fn lemma_unsplit(text: Seq<char>, sep: char)
    requires
        !text.contains(sep),
    ensures
        split_by(text, sep) == seq![text],
{
    let pieces = split_by(text, sep);
    law_split_pieces(text, sep);
    if pieces.len() > 1 {
        let front = joined(pieces.drop_last(), sep);
        assert(text[front.len() as int] == sep);
    }
    assert(pieces =~= seq![text]);
}

proof fn lemma_trimmed_start(text: Seq<char>) -> (n: int)
    ensures
        0 <= n <= text.len(),
        trimmed_start(text) == text.skip(n),
        forall|i: int| 0 <= i < n ==> is_white_space(#[trigger] text[i]),
        n < text.len() ==> !is_white_space(text[n]),
    decreases text.len(),
{
    if text.len() > 0 && is_white_space(text[0]) {
        let m = lemma_trimmed_start(text.skip(1));
        assert(text.skip(1).skip(m) =~= text.skip(m + 1));
        assert forall|i: int| 0 <= i < m + 1 implies is_white_space(#[trigger] text[i]) by {
            if i > 0 {
                assert(text.skip(1)[i - 1] == text[i]);
            }
        }
        if m + 1 < text.len() {
            assert(text.skip(1)[m] == text[m + 1]);
        }
        m + 1
    } else {
        assert(text.skip(0) =~= text);
        0
    }
}

proof fn lemma_trimmed_end(text: Seq<char>) -> (n: int)
    ensures
        0 <= n <= text.len(),
        trimmed_end(text) == text.take(n),
        forall|i: int| n <= i < text.len() ==> is_white_space(#[trigger] text[i]),
        n > 0 ==> !is_white_space(text[n - 1]),
    decreases text.len(),
{
    if text.len() > 0 && is_white_space(text.last()) {
        let front = text.drop_last();
        let n = lemma_trimmed_end(front);
        assert(front.take(n) =~= text.take(n));
        assert forall|i: int| n <= i < text.len() implies is_white_space(#[trigger] text[i]) by {
            if i < front.len() {
                assert(front[i] == text[i]);
            }
        }
        if n > 0 {
            assert(front[n - 1] == text[n - 1]);
        }
        n
    } else {
        assert(text.take(text.len() as int) =~= text);
        text.len() as int
    }
}

/// Trimming takes the white space from both ends of a text and nothing else.
pub proof fn law_trimmed(text: Seq<char>) -> (bounds: (int, int))
    ensures
        0 <= bounds.0 <= bounds.1 <= text.len(),
        trimmed(text) == text.subrange(bounds.0, bounds.1),
        forall|i: int|
            0 <= i < bounds.0 || bounds.1 <= i < text.len() ==> is_white_space(#[trigger] text[i]),
        bounds.0 < bounds.1 ==> !is_white_space(text[bounds.0]) && !is_white_space(
            text[bounds.1 - 1],
        ),
{
    let from = lemma_trimmed_start(text);
    let rest = text.skip(from);
    let count = lemma_trimmed_end(rest);
    assert(rest.take(count) =~= text.subrange(from, from + count));
    assert forall|i: int|
        0 <= i < from || from + count <= i < text.len() implies is_white_space(
        #[trigger] text[i],
    ) by {
        if i >= from {
            assert(rest[i - from] == text[i]);
        }
    }
    if count > 0 {
        assert(rest[0] == text[from] && rest[count - 1] == text[from + count - 1]);
    }
    (from, from + count)
}

/// Of the ASCII characters, the space and the controls from the tab to the carriage return are
/// white space and no others; letters, digits and signs are not.
pub proof fn law_ascii_white_space(c: char)
    requires
        (c as u32) < 128,
    ensures
        is_white_space(c) <==> c == ' ' || c == '\t' || c == '\n' || c == '\u{b}' || c == '\u{c}'
            || c == '\r',
{
}

proof fn lemma_number_positive(text: Seq<char>)
    requires
        text.len() > 0,
        all_digits(text),
        text[0] != '0',
    ensures
        number(text) > 0,
    decreases text.len(),
{
    assert(is_digit(text[0]));
    if text.len() > 1 {
        let front = text.drop_last();
        assert forall|i: int| 0 <= i < front.len() implies is_digit(#[trigger] front[i]) by {
            assert(is_digit(text[i]));
        }
        lemma_number_positive(front);
    } else {
        reveal_with_fuel(number, 2);
    }
}

/// Digits without a leading zero are the decimal text of their number.
proof fn lemma_digits_of_number(text: Seq<char>)
    requires
        text.len() > 0,
        all_digits(text),
        text.len() > 1 ==> text[0] != '0',
    ensures
        digits(number(text)) == text,
    decreases text.len(),
{
    let front = text.drop_last();
    let last = text.last();
    assert(is_digit(text[text.len() - 1]));
    assert(digit_char(digit_value(last)) == last);
    assert(front.push(last) =~= text);
    if front.len() > 0 {
        assert forall|i: int| 0 <= i < front.len() implies is_digit(#[trigger] front[i]) by {
            assert(is_digit(text[i]));
        }
        lemma_digits_of_number(front);
        lemma_number_positive(front);
        let n = number(text);
        assert(n / 10 == number(front) && n % 10 == digit_value(last));
    } else {
        reveal_with_fuel(number, 2);
        assert(number(text) == digit_value(last));
        assert(digits(digit_value(last)) =~= text);
    }
}

/// The dotted text of an address.
pub open spec fn dotted(a: nat, b: nat, c: nat, d: nat) -> Seq<char> {
    decimal(a as int).push('.') + (decimal(b as int).push('.') + (decimal(c as int).push('.')
        + decimal(d as int)))
}

proof fn lemma_octet(n: nat)
    requires
        n <= 255,
    ensures
        octet(decimal(n as int)) == Some(n),
        !decimal(n as int).contains('.'),
{
    lemma_digits(n);
    reveal_with_fuel(digits, 4);
    let text = decimal(n as int);
    if text.contains('.') {
        let i = text.index_of('.');
        assert(is_digit(text[i]));
    }
}

/// Four numbers up to 255 in decimal, with dots between them, are an address, and its number is
/// made of them, the first the most significant.
pub proof fn law_dotted_text_is_an_address(a: nat, b: nat, c: nat, d: nat)
    requires
        a <= 255,
        b <= 255,
        c <= 255,
        d <= 255,
    ensures
        ipv4_of(dotted(a, b, c, d)) == Some(
            Ipv4 { bits: (a * 0x100_0000 + b * 0x1_0000 + c * 0x100 + d) as u32 },
        ),
{
    lemma_octet(a);
    lemma_octet(b);
    lemma_octet(c);
    lemma_octet(d);
    let (ta, tb, tc, td) = (
        decimal(a as int),
        decimal(b as int),
        decimal(c as int),
        decimal(d as int),
    );
    lemma_unsplit(ta, '.');
    lemma_unsplit(tb, '.');
    lemma_unsplit(tc, '.');
    lemma_unsplit(td, '.');
    lemma_split_concat(tc, td, '.');
    lemma_split_concat(tb, tc.push('.') + td, '.');
    lemma_split_concat(ta, tb.push('.') + (tc.push('.') + td), '.');
    assert(split_by(dotted(a, b, c, d), '.') =~= seq![ta, tb, tc, td]);
}

/// Nothing but such text is an address.
pub proof fn law_addresses_are_dotted_text(text: Seq<char>)
    requires
        ipv4_of(text) is Some,
    ensures
        ({
            let bits = ipv4_of(text)->0.bits as nat;
            text == dotted(
                bits / 0x100_0000,
                bits / 0x1_0000 % 0x100,
                bits / 0x100 % 0x100,
                bits % 0x100,
            )
        }),
{
    let parts = split_by(text, '.');
    law_split_pieces(text, '.');
    let (a, b, c, d) = (
        octet(parts[0])->0,
        octet(parts[1])->0,
        octet(parts[2])->0,
        octet(parts[3])->0,
    );
    lemma_digits_of_number(parts[0]);
    lemma_digits_of_number(parts[1]);
    lemma_digits_of_number(parts[2]);
    lemma_digits_of_number(parts[3]);
    assert(a <= 255 && b <= 255 && c <= 255 && d <= 255);
    lemma_octets_apart(a, b, c, d);
    lemma_joined_four(parts, '.');
}

/// Four octets made into one number are found in it again.
proof fn lemma_octets_apart(a: nat, b: nat, c: nat, d: nat)
    requires
        a <= 255,
        b <= 255,
        c <= 255,
        d <= 255,
    ensures
        ({
            let sum = a * 0x100_0000 + b * 0x1_0000 + c * 0x100 + d;
            &&& sum <= 0xffff_ffff
            &&& sum / 0x100_0000 == a
            &&& sum / 0x1_0000 % 0x100 == b
            &&& sum / 0x100 % 0x100 == c
            &&& sum % 0x100 == d
        }),
{
    let sum = a * 0x100_0000 + b * 0x1_0000 + c * 0x100 + d;
    assert(sum / 0x100_0000 == a);
    assert(sum / 0x1_0000 == a * 0x100 + b);
    assert(sum / 0x100 == a * 0x1_0000 + b * 0x100 + c);
}

proof fn lemma_joined_four(parts: Seq<Seq<char>>, sep: char)
    requires
        parts.len() == 4,
    ensures
        joined(parts, sep) == parts[0].push(sep) + (parts[1].push(sep) + (parts[2].push(sep)
            + parts[3])),
{
    let three = parts.drop_last();
    let two = three.drop_last();
    let one = two.drop_last();
    assert(one.len() == 1 && one[0] == parts[0]);
    assert(joined(one, sep) == parts[0]);
    assert(two.len() == 2 && two.last() == parts[1]);
    assert(joined(two, sep) == parts[0].push(sep) + parts[1]);
    assert(three.len() == 3 && three.last() == parts[2]);
    assert(joined(three, sep) == (parts[0].push(sep) + parts[1]).push(sep) + parts[2]);
    assert(joined(parts, sep) =~= parts[0].push(sep) + (parts[1].push(sep) + (parts[2].push(sep)
        + parts[3])));
}

/// An entry with a slash is a block, any other is one address, and nothing else is an entry.
pub proof fn law_entries_are_addresses_or_blocks(token: Seq<char>)
    ensures
        token.contains('/') ==> entry_net(token) == cidr_of(token),
        !token.contains('/') ==> (entry_net(token) is Some <==> ipv4_of(token) is Some),
        !token.contains('/') && ipv4_of(token) is Some ==> entry_net(token) == Some(
            Net { addr: ipv4_of(token)->0.bits, prefix: 32 },
        ),
{
}

/// A list admits an address exactly where one of its entries does: blank entries count for
/// nothing, and a list with an entry that is neither an address nor a block is refused, with the
/// first such entry named.
pub proof fn law_list_admits_what_an_entry_admits(pieces: Seq<Seq<char>>, ip: Ipv4)
    ensures
        match entries_parsed(pieces) {
            Ok(nets) => {
                &&& forall|i: int|
                    0 <= i < pieces.len() && trimmed(#[trigger] pieces[i]).len() > 0 ==> entry_net(
                        trimmed(pieces[i]),
                    ) is Some
                &&& admits(nets, ip) <==> exists|i: int|
                    0 <= i < pieces.len() && trimmed(#[trigger] pieces[i]).len() > 0 && covers(
                        entry_net(trimmed(pieces[i]))->0,
                        ip,
                    )
            },
            Err(token) => exists|i: int|
                0 <= i < pieces.len() && trimmed(#[trigger] pieces[i]) == token && token.len() > 0
                    && entry_net(token) is None && forall|j: int|
                    0 <= j < i && trimmed(#[trigger] pieces[j]).len() > 0 ==> entry_net(
                        trimmed(pieces[j]),
                    ) is Some,
        },
    decreases pieces.len(),
{
    if pieces.len() > 0 {
        let front = pieces.drop_last();
        let last = pieces.len() - 1;
        law_list_admits_what_an_entry_admits(front, ip);
        assert(forall|i: int| 0 <= i < front.len() ==> front[i] == #[trigger] pieces[i]);
        match entries_parsed(front) {
            Err(token) => {
                let i = choose|i: int|
                    0 <= i < front.len() && trimmed(#[trigger] front[i]) == token && token.len() > 0
                        && entry_net(token) is None && forall|j: int|
                        0 <= j < i && trimmed(#[trigger] front[j]).len() > 0 ==> entry_net(
                            trimmed(front[j]),
                        ) is Some;
                assert(trimmed(pieces[i]) == token);
                assert forall|j: int|
                    0 <= j < i && trimmed(#[trigger] pieces[j]).len() > 0 implies entry_net(
                    trimmed(pieces[j]),
                ) is Some by {
                    assert(front[j] == pieces[j]);
                }
            },
            Ok(nets) => {
                let token = trimmed(pieces[last]);
                assert(pieces.last() == pieces[last]);
                if token.len() == 0 {
                    lemma_some_entry(front, pieces, ip);
                } else if entry_net(token) is Some {
                    let all = nets.push(entry_net(token)->0);
                    lemma_some_entry(front, pieces, ip);
                    if admits(nets, ip) {
                        let k = choose|k: int|
                            0 <= k < nets.len() && covers(#[trigger] nets[k], ip);
                        assert(covers(all[k], ip));
                    }
                    if covers(entry_net(token)->0, ip) {
                        assert(covers(all[nets.len() as int], ip));
                    }
                    if admits(all, ip) {
                        let k = choose|k: int| 0 <= k < all.len() && covers(#[trigger] all[k], ip);
                        if k < nets.len() {
                            assert(covers(nets[k], ip));
                        }
                    }
                } else {
                    assert(trimmed(pieces[last]) == token);
                }
            },
        }
    }
}

proof fn lemma_some_entry(front: Seq<Seq<char>>, pieces: Seq<Seq<char>>, ip: Ipv4)
    requires
        pieces.len() > 0,
        front == pieces.drop_last(),
    ensures
        ({
            let last = trimmed(pieces.last());
            (exists|i: int|
                0 <= i < pieces.len() && trimmed(#[trigger] pieces[i]).len() > 0 && covers(
                    entry_net(trimmed(pieces[i]))->0,
                    ip,
                )) <==> (exists|i: int|
                0 <= i < front.len() && trimmed(#[trigger] front[i]).len() > 0 && covers(
                    entry_net(trimmed(front[i]))->0,
                    ip,
                )) || (last.len() > 0 && covers(entry_net(last)->0, ip))
        }),
{
    let last = pieces.len() - 1;
    if exists|i: int|
        0 <= i < pieces.len() && trimmed(#[trigger] pieces[i]).len() > 0 && covers(
            entry_net(trimmed(pieces[i]))->0,
            ip,
        ) {
        let i = choose|i: int|
            0 <= i < pieces.len() && trimmed(#[trigger] pieces[i]).len() > 0 && covers(
                entry_net(trimmed(pieces[i]))->0,
                ip,
            );
        if i < last {
            assert(front[i] == pieces[i]);
        }
    }
    if exists|i: int|
        0 <= i < front.len() && trimmed(#[trigger] front[i]).len() > 0 && covers(
            entry_net(trimmed(front[i]))->0,
            ip,
        ) {
        let i = choose|i: int|
            0 <= i < front.len() && trimmed(#[trigger] front[i]).len() > 0 && covers(
                entry_net(trimmed(front[i]))->0,
                ip,
            );
        assert(front[i] == pieces[i]);
    }
    assert(pieces[last] == pieces.last());
}

/// A variable has the value of its first occurrence.
pub proof fn law_first_occurrence_counts(env: Env, key: Seq<char>, i: int)
    requires
        0 <= i < env.len(),
        env[i].0 == key,
        forall|j: int| 0 <= j < i ==> (#[trigger] env[j]).0 != key,
    ensures
        lookup(env, key) == Some(env[i].1),
    decreases env.len(),
{
    let front = env.drop_last();
    if i < front.len() {
        assert forall|j: int| 0 <= j < i implies (#[trigger] front[j]).0 != key by {
            assert(front[j] == env[j]);
        }
        assert(front[i] == env[i]);
        law_first_occurrence_counts(front, key, i);
    } else {
        assert forall|j: int| 0 <= j < front.len() implies (#[trigger] front[j]).0 != key by {
            assert(front[j] == env[j]);
        }
        law_unset_variable(front, key);
    }
}

/// A variable that does not occur is not set.
pub proof fn law_unset_variable(env: Env, key: Seq<char>)
    requires
        forall|j: int| 0 <= j < env.len() ==> (#[trigger] env[j]).0 != key,
    ensures
        lookup(env, key) is None,
    decreases env.len(),
{
    if env.len() > 0 {
        let front = env.drop_last();
        assert forall|j: int| 0 <= j < front.len() implies (#[trigger] front[j]).0 != key by {
            assert(front[j] == env[j]);
        }
        assert(env[env.len() - 1] == env.last());
        law_unset_variable(front, key);
    }
}

/// Whether a setting is the number that its variable holds, or its default where the variable is
/// not set.
pub open spec fn number_from(env: Env, key: Seq<char>, max: nat, default: nat, n: nat) -> bool {
    &&& lookup(env, key) is None ==> n == default
    &&& lookup(env, key) is Some ==> parsed_unsigned(lookup(env, key)->0, max) == Some(n)
}

/// Whether a setting is yes exactly where its variable says so.
pub open spec fn flag_from(env: Env, key: Seq<char>, yes: bool) -> bool {
    &&& lookup(env, key) is None ==> !yes
    &&& lookup(env, key) is Some ==> (yes <==> seq!["1"@, "true"@, "yes"@, "on"@].contains(
        lower_case(lookup(env, key)->0),
    ))
}

proof fn lemma_short_number(text: Seq<char>)
    ensures
        text.len() == 1 ==> number(text) == digit_value(text[0]),
        text.len() == 2 ==> number(text) == 10 * digit_value(text[0]) + digit_value(text[1]),
        text.len() == 3 ==> number(text) == 100 * digit_value(text[0]) + 10 * digit_value(text[1])
            + digit_value(text[2]),
        text.len() == 4 ==> number(text) == 1000 * digit_value(text[0]) + 100 * digit_value(
            text[1],
        ) + 10 * digit_value(text[2]) + digit_value(text[3]),
        text.len() == 5 ==> number(text) == 10000 * digit_value(text[0]) + 1000 * digit_value(
            text[1],
        ) + 100 * digit_value(text[2]) + 10 * digit_value(text[3]) + digit_value(text[4]),
    decreases text.len(),
{
    if text.len() > 0 {
        reveal_with_fuel(number, 2);
        lemma_short_number(text.drop_last());
    }
}

proof fn lemma_defaults()
    ensures
        parsed_unsigned("1"@, u64::MAX as nat) == Some(1nat),
        parsed_unsigned("8200"@, u16::MAX as nat) == Some(8200nat),
        parsed_unsigned("15"@, u64::MAX as nat) == Some(15nat),
        parsed_unsigned("300"@, u64::MAX as nat) == Some(300nat),
        parsed_unsigned("5"@, u32::MAX as nat) == Some(5nat),
        parsed_unsigned("86400"@, u64::MAX as nat) == Some(86400nat),
        parsed_unsigned("10"@, u32::MAX as nat) == Some(10nat),
        parsed_i64("900"@) == Some(900int),
        parsed_i64("300"@) == Some(300int),
{
    reveal_strlit("1");
    reveal_strlit("8200");
    reveal_strlit("15");
    reveal_strlit("300");
    reveal_strlit("5");
    reveal_strlit("86400");
    reveal_strlit("10");
    reveal_strlit("900");
    lemma_short_number("1"@);
    lemma_short_number("8200"@);
    lemma_short_number("15"@);
    lemma_short_number("300"@);
    lemma_short_number("5"@);
    lemma_short_number("86400"@);
    lemma_short_number("10"@);
    lemma_short_number("900"@);
}

proof fn lemma_ascii_words()
    ensures
        lower_case("false"@) == "false"@,
        lower_case("local"@) == "local"@,
        lower_case("aws"@) == "aws"@,
        "false"@ != "1"@,
        "false"@ != "true"@,
        "false"@ != "yes"@,
        "false"@ != "on"@,
        "local"@ != "linearizable"@,
        "local"@ != "aws"@,
{
    reveal_strlit("false");
    reveal_strlit("local");
    reveal_strlit("aws");
    reveal_strlit("1");
    reveal_strlit("true");
    reveal_strlit("yes");
    reveal_strlit("on");
    reveal_strlit("linearizable");
    assert(lower_case("false"@) =~= "false"@);
    assert(lower_case("local"@) =~= "local"@);
    assert(lower_case("aws"@) =~= "aws"@);
    assert("false"@[0] == 'f' && "true"@[0] == 't');
    assert("local"@.len() == 5 && "linearizable"@.len() == 12 && "aws"@.len() == 3);
}

/// Every setting comes from its own variable, or is its default where the variable is not set.
pub proof fn law_settings_come_from_their_variables(env: Env, cfg: ConfigView)
    requires
        config_of(env) == Ok::<ConfigView, Seq<char>>(cfg),
    ensures
        number_from(env, "NODE_ID"@, u64::MAX as nat, 1, cfg.node_id as nat),
        cfg.node_id >= 1,
        number_from(env, "VAULT_API_PORT"@, u16::MAX as nat, 8200, cfg.api_port as nat),
        number_from(
            env,
            "VAULT_ROTATION_POLL_SECS"@,
            u64::MAX as nat,
            15,
            cfg.rotation_poll_secs as nat,
        ),
        number_from(
            env,
            "VAULT_DEK_CACHE_TTL_SECS"@,
            u64::MAX as nat,
            300,
            cfg.dek_cache_ttl_secs as nat,
        ),
        number_from(env, "VAULT_KMS_MAX_RETRIES"@, u32::MAX as nat, 5, cfg.kms_max_retries as nat),
        number_from(
            env,
            "VAULT_KMS_REWRAP_POLL_SECS"@,
            u64::MAX as nat,
            86400,
            cfg.kms_rewrap_poll_secs as nat,
        ),
        number_from(
            env,
            "VAULT_KMS_REWRAP_MAX_PER_SEC"@,
            u32::MAX as nat,
            10,
            cfg.kms_rewrap_max_per_sec as nat,
        ),
        number_from(
            env,
            "VAULT_AUTH_MAX_FAILURES"@,
            u32::MAX as nat,
            5,
            cfg.auth_max_failures as nat,
        ),
        lookup(env, "VAULT_AUTH_LOCKOUT_SECS"@) is None ==> cfg.auth_lockout_secs == 900,
        lookup(env, "VAULT_AUTH_LOCKOUT_SECS"@) matches Some(text) ==> parsed_i64(text) == Some(
            cfg.auth_lockout_secs as int,
        ),
        lookup(env, "VAULT_AUTH_WINDOW_SECS"@) is None ==> cfg.auth_window_secs == 300,
        lookup(env, "VAULT_AUTH_WINDOW_SECS"@) matches Some(text) ==> parsed_i64(text) == Some(
            cfg.auth_window_secs as int,
        ),
        flag_from(env, "VAULT_TRUST_PROXY"@, cfg.trust_proxy),
        flag_from(env, "VAULT_KMS_REWRAP_ENABLED"@, cfg.kms_rewrap_enabled),
        cfg.read_consistency_linearizable <==> lookup(env, "VAULT_READ_CONSISTENCY"@) is Some
            && lower_case(lookup(env, "VAULT_READ_CONSISTENCY"@)->0) == "linearizable"@,
        cfg.kms_mode == KmsMode::Local <==> lookup(env, "VAULT_KMS_MODE"@) is Some && lower_case(
            lookup(env, "VAULT_KMS_MODE"@)->0,
        ) == "local"@,
        cfg.kms_mode == KmsMode::Aws ==> cfg.kms_key_id.len() > 0,
        cfg.kms_key_id == or_default(env, "VAULT_KMS_KEY_ID"@, Seq::empty()),
        cfg.db_path == or_default(env, "VAULT_DB_PATH"@, "vault.redb"@),
        cfg.allowed_ips == or_default(env, "VAULT_ALLOWED_IPS"@, Seq::empty()),
        cfg.bootstrap_token == nonempty_value(env, "VAULT_BOOTSTRAP_TOKEN"@),
        cfg.local_master_key_b64 == nonempty_value(env, "VAULT_LOCAL_MASTER_KEY"@),
        peers_of(split_by(or_default(env, "VAULT_PEERS"@, Seq::empty()), ',')) == Ok::<
            Map<u64, Seq<char>>,
            Seq<char>,
        >(cfg.peers),
{
    lemma_defaults();
    lemma_ascii_words();
    reveal_strlit("");
    assert(""@ =~= Seq::empty());
    let words = seq!["1"@, "true"@, "yes"@, "on"@];
    assert(words[0] == "1"@ && words[1] == "true"@ && words[2] == "yes"@ && words[3] == "on"@);
    assert forall|text: Seq<char>| words.contains(text) <==> #[trigger]
        crate::config::affirmative(text) by {
        if words.contains(text) {
            let k = words.index_of(text);
            assert(words[k] == text);
        }
    }
}

/// The value of a variable, where it is set and not empty.
pub open spec fn nonempty_value(env: Env, key: Seq<char>) -> Option<Seq<char>> {
    if lookup(env, key) is Some && lookup(env, key)->0.len() > 0 {
        lookup(env, key)
    } else {
        None
    }
}

/// A peer given as its number, an equals sign and its address is read as that.
pub proof fn law_peer_reads_back(id: u64, addr: Seq<char>)
    requires
        addr.len() > 0,
        trimmed(addr) == addr,
    ensures
        peer_of(decimal(id as int).push('=') + addr) == Ok::<(u64, Seq<char>), Seq<char>>(
            (id, addr),
        ),
{
    let number = decimal(id as int);
    let entry = number.push('=') + addr;
    lemma_digits(id as nat);
    law_number_reads_back(id as nat, u64::MAX as nat);
    assert(entry[number.len() as int] == '=');
    assert(entry.contains('='));
    let at = entry.index_of_first('=')->0;
    entry.index_of_first_ensures('=');
    if at < number.len() {
        assert(is_digit(number[at]));
        assert(entry[at] == number[at]);
    }
    assert(at == number.len());
    assert(entry.take(at) =~= number);
    assert(entry.skip(at + 1) =~= addr);
    assert(cut(entry, '=') == Some((number, addr)));
    lemma_digits_untrimmed(number);
}

/// What is read as a peer is a number, an equals sign, the first there is, and an address that is
/// not blank, white space around either left out.
pub proof fn law_peer_is_number_and_address(entry: Seq<char>, at: int)
    requires
        0 <= at < entry.len(),
        entry[at] == '=',
        forall|i: int| 0 <= i < at ==> entry[i] != '=',
    ensures
        peer_of(entry) is Ok <==> parsed_unsigned(trimmed(entry.take(at)), u64::MAX as nat) is Some
            && trimmed(entry.skip(at + 1)).len() > 0,
        peer_of(entry) matches Ok((id, addr)) ==> parsed_unsigned(
            trimmed(entry.take(at)),
            u64::MAX as nat,
        ) == Some(id as nat) && addr == trimmed(entry.skip(at + 1)),
{
    entry.index_of_first_ensures('=');
    let first = entry.index_of_first('=')->0;
    assert(entry.contains('='));
    assert(first == at);
}

/// Without an equals sign there is no peer.
pub proof fn law_no_peer_without_equals_sign(entry: Seq<char>)
    requires
        !entry.contains('='),
    ensures
        peer_of(entry) is Err,
{
}

proof fn lemma_digits_untrimmed(text: Seq<char>)
    requires
        text.len() > 0,
        all_digits(text),
    ensures
        trimmed(text) == text,
{
    let (from, to) = law_trimmed(text);
    if from > 0 {
        assert(is_digit(text[0]));
        assert(is_white_space(text[0]));
    }
    if to < text.len() {
        assert(is_digit(text[text.len() - 1]));
        assert(is_white_space(text[text.len() - 1]));
    }
    assert(text.subrange(0, text.len() as int) =~= text);
}

/// The peers are those that the entries name, each with the address of the last entry that names
/// it; one entry that cannot be read spoils the list.
pub proof fn law_peers_are_those_named(pieces: Seq<Seq<char>>, id: u64, i: int)
    ensures
        peers_of(pieces) is Ok <==> forall|j: int|
            0 <= j < pieces.len() ==> readable(#[trigger] pieces[j]),
        peers_of(pieces) matches Ok(peers) ==> (peers.contains_key(id) <==> exists|j: int|
            0 <= j < pieces.len() && #[trigger] names_peer(pieces[j], id)),
        peers_of(pieces) matches Ok(peers) ==> (0 <= i < pieces.len() && names_peer(pieces[i], id)
            && (forall|j: int| i < j < pieces.len() ==> !#[trigger] names_peer(pieces[j], id))
            ==> peers[id] == (peer_of(trimmed(pieces[i]))->Ok_0).1),
{
    lemma_peers_readable(pieces);
    if peers_of(pieces) is Ok {
        lemma_peers_named(pieces, id);
        if 0 <= i < pieces.len() && names_peer(pieces[i], id) && (forall|j: int|
            i < j < pieces.len() ==> !#[trigger] names_peer(pieces[j], id)) {
            lemma_peer_address(pieces, id, i);
        }
    }
}

/// Whether an entry is blank or names a peer.
pub open spec fn readable(piece: Seq<char>) -> bool {
    trimmed(piece).len() == 0 || peer_of(trimmed(piece)) is Ok
}

proof fn lemma_peers_readable(pieces: Seq<Seq<char>>)
    ensures
        peers_of(pieces) is Ok <==> forall|j: int|
            0 <= j < pieces.len() ==> readable(#[trigger] pieces[j]),
    decreases pieces.len(),
{
    if pieces.len() > 0 {
        let front = pieces.drop_last();
        let last = pieces.len() - 1;
        lemma_peers_readable(front);
        assert(pieces[last] == pieces.last());
        if forall|j: int| 0 <= j < front.len() ==> readable(#[trigger] front[j]) {
            assert forall|j: int| 0 <= j < last implies readable(#[trigger] pieces[j]) by {
                assert(front[j] == pieces[j]);
            }
        } else {
            let j = choose|j: int| 0 <= j < front.len() && !readable(#[trigger] front[j]);
            assert(!readable(pieces[j]));
        }
    }
}

proof fn lemma_peers_named(pieces: Seq<Seq<char>>, id: u64)
    requires
        peers_of(pieces) is Ok,
    ensures
        peers_of(pieces)->Ok_0.contains_key(id) <==> exists|j: int|
            0 <= j < pieces.len() && #[trigger] names_peer(pieces[j], id),
    decreases pieces.len(),
{
    if pieces.len() > 0 {
        let front = pieces.drop_last();
        let last = pieces.len() - 1;
        lemma_peers_named(front, id);
        assert(pieces[last] == pieces.last());
        if names_peer(pieces[last], id) {
            assert(peers_of(pieces)->Ok_0.contains_key(id));
        } else if exists|j: int| 0 <= j < front.len() && #[trigger] names_peer(front[j], id) {
            let j = choose|j: int| 0 <= j < front.len() && #[trigger] names_peer(front[j], id);
            assert(names_peer(pieces[j], id));
        } else {
            assert forall|j: int| 0 <= j < pieces.len() implies !#[trigger] names_peer(
                pieces[j],
                id,
            ) by {
                if j < last {
                    assert(front[j] == pieces[j]);
                }
            }
        }
    }
}

proof fn lemma_peer_address(pieces: Seq<Seq<char>>, id: u64, i: int)
    requires
        peers_of(pieces) is Ok,
        0 <= i < pieces.len(),
        names_peer(pieces[i], id),
        forall|j: int| i < j < pieces.len() ==> !#[trigger] names_peer(pieces[j], id),
    ensures
        peers_of(pieces)->Ok_0[id] == (peer_of(trimmed(pieces[i]))->Ok_0).1,
    decreases pieces.len(),
{
    let front = pieces.drop_last();
    let last = pieces.len() - 1;
    assert(pieces[last] == pieces.last());
    if i < last {
        assert(!names_peer(pieces[last], id));
        assert(front[i] == pieces[i]);
        assert forall|j: int| i < j < front.len() implies !#[trigger] names_peer(front[j], id) by {
            assert(front[j] == pieces[j]);
        }
        lemma_peer_address(front, id, i);
    }
}

/// Whether an entry names the peer with the given number.
pub open spec fn names_peer(piece: Seq<char>, id: u64) -> bool {
    trimmed(piece).len() > 0 && peer_of(trimmed(piece)) is Ok && (peer_of(trimmed(
        piece,
    ))->Ok_0).0 == id
}

/// A server given as its host, a colon and a port is that host with that port; one without a colon
/// has the usual port.
pub proof fn law_host_and_port(host: Seq<char>, port: u16)
    ensures
        before_last_colon(host.push(':') + decimal(port as int)) == host,
        port_or_default(host.push(':') + decimal(port as int)) == port,
        !host.contains(':') ==> before_last_colon(host) == host && port_or_default(host) == 5432,
        parsed_unsigned(after_last_colon(host), u16::MAX as nat) is None ==> port_or_default(host)
            == 5432,
{
    let tail = decimal(port as int);
    let text = host.push(':') + tail;
    lemma_digits(port as nat);
    law_number_reads_back(port as nat, u16::MAX as nat);
    if tail.contains(':') {
        let i = tail.index_of(':');
        assert(is_digit(tail[i]));
    }
    assert(text[host.len() as int] == ':');
    assert(text =~= host + seq![':'] + tail);
    lemma_colon(host, tail);
    assert(text.take(host.len() as int) =~= host);
}

proof fn lemma_colon(host: Seq<char>, tail: Seq<char>)
    requires
        !tail.contains(':'),
    ensures
        after_last_colon(host.push(':') + tail) == tail,
    decreases tail.len(),
{
    let text = host.push(':') + tail;
    if tail.len() > 0 {
        let front = tail.drop_last();
        if front.contains(':') {
            let i = front.index_of(':');
            assert(tail[i] == ':');
        }
        lemma_colon(host, front);
        assert(text.drop_last() =~= host.push(':') + front);
        assert(tail[tail.len() - 1] == tail.last());
        assert(front.push(tail.last()) =~= tail);
    } else {
        assert(text =~= host.push(':'));
        assert(tail =~= Seq::empty());
    }
}

/// A connection names its host, port, database, user and password, each in its place, and two
/// connections that differ in their port alone differ.
pub proof fn law_connection_names_its_parts(
    host: Seq<char>,
    port: u16,
    other: u16,
    database: Seq<char>,
    user: Seq<char>,
    password: Seq<char>,
)
    ensures
        connection_of(host, port, database, user, password) == "host="@ + host + " port="@
            + decimal(port as int) + " dbname="@ + database + " user="@ + user + " password="@
            + password + " connect_timeout=3"@,
        decimal(port as int) == decimal(other as int) ==> port == other,
{
    lemma_digits(port as nat);
    lemma_digits(other as nat);
}

/// The database of the supervisor is the one that the setting names, else the one that the
/// environment names, else the usual one; empty names count for nothing.
pub proof fn law_supervisor_database(setting: Option<Seq<char>>, env: Option<Seq<char>>)
    ensures
        setting is Some && setting->0.len() > 0 ==> database_of(setting, env) == setting->0,
        (setting is None || setting->0.len() == 0) && env is Some && env->0.len() > 0
            ==> database_of(setting, env) == env->0,
        (setting is None || setting->0.len() == 0) && (env is None || env->0.len() == 0)
            ==> database_of(setting, env) == "postgres"@,
{
}

/// A batch is refused exactly where it has more than 256 names.
pub proof fn law_batches_are_bounded(count: nat)
    ensures
        batch_refusal(count) is None <==> count <= 256,
        batch_refusal(count) matches Some(error) ==> error is BadRequest,
{
}

/// The context of a key names the secret and the version: two that are the same are of one version
/// of one secret.
pub proof fn law_context_names_the_version(a: Seq<char>, m: nat, b: Seq<char>, n: nat)
    ensures
        context_of(a, m as int) == context_of(b, n as int) ==> a == b && m == n,
        context_of(a, m as int).len() == 2,
        context_of(a, m as int)[0] == ("secret"@, a),
        context_of(a, m as int)[1].0 == "version"@,
        parsed_unsigned(context_of(a, m as int)[1].1, m) == Some(m),
{
    law_number_reads_back(m, m);
    law_number_reads_back(n, n);
    lemma_digits(m);
    lemma_digits(n);
    if context_of(a, m as int) == context_of(b, n as int) {
        assert(context_of(a, m as int)[0].1 == context_of(b, n as int)[0].1);
        assert(context_of(a, m as int)[1].1 == context_of(b, n as int)[1].1);
    }
}

} // verus!
