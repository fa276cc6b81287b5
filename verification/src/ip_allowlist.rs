//! The IPv4 addresses that may read secrets.

use std::str::FromStr;
use vstd::arithmetic::power2::{lemma2_to64, lemma_pow2_pos, pow2};
use vstd::bits::lemma_u32_shr_is_div;
use vstd::prelude::*;
use crate::error::{Error, Result};
use crate::text::{
    all_digits, chars_of, is_digit, lemma_split_by_nonempty, number, parse_unsigned, split, split_by,
    trim, trimmed, unsigned_digits, views,
};

verus! {

/// An IPv4 address: its four octets as one number, the first the most significant.
#[derive(Debug, Clone, Copy, PartialEq, Eq, Structural)]
pub struct Ipv4 {
    pub bits: u32,
}

/// One part of a dotted address: a number up to 255 without leading zeros.
pub open spec fn octet(text: Seq<char>) -> Option<nat> {
    if 1 <= text.len() <= 3 && all_digits(text) && (text.len() > 1 ==> text[0] != '0') && number(
        text,
    ) <= 255 {
        Some(number(text))
    } else {
        None
    }
}

/// The address that four dotted parts denote.
pub open spec fn ipv4_of(text: Seq<char>) -> Option<Ipv4> {
    let parts = split_by(text, '.');
    if parts.len() == 4 && octet(parts[0]) is Some && octet(parts[1]) is Some && octet(
        parts[2],
    ) is Some && octet(parts[3]) is Some {
        Some(
            Ipv4 {
                bits: (octet(parts[0])->0 * 0x100_0000 + octet(parts[1])->0 * 0x1_0000 + octet(
                    parts[2],
                )->0 * 0x100 + octet(parts[3])->0) as u32,
            },
        )
    } else {
        None
    }
}

fn parse_octet(text: &str) -> (r: Option<u32>)
    ensures
        match r {
            Some(n) => octet(text@) == Some(n as nat) && n <= 255,
            None => octet(text@) is None,
        },
{
    let chars = chars_of(text);
    if chars.len() == 0 || chars.len() > 3 {
        return None;
    }
    if chars[0] == '+' {
        assert(!all_digits(text@));
        return None;
    }
    if chars.len() > 1 && chars[0] == '0' {
        return None;
    }
    assert(unsigned_digits(text@) == text@);
    match parse_unsigned(text, 255) {
        Some(n) => Some(n as u32),
        None => None,
    }
}

/// Parses a dotted IPv4 address.
pub fn parse_ipv4(text: &str) -> (r: Option<Ipv4>)
    ensures
        r == ipv4_of(text@),
{
    let parts = split(text, '.');
    let ghost p = split_by(text@, '.');
    assert(parts@.len() == p.len());
    if parts.len() != 4 {
        return None;
    }
    assert(views(parts@)[0] == p[0] && views(parts@)[1] == p[1] && views(parts@)[2] == p[2]
        && views(parts@)[3] == p[3]);
    let a = parse_octet(parts[0].as_str());
    let b = parse_octet(parts[1].as_str());
    let c = parse_octet(parts[2].as_str());
    let d = parse_octet(parts[3].as_str());
    match (a, b, c, d) {
        (Some(a), Some(b), Some(c), Some(d)) => Some(
            Ipv4 { bits: a * 0x100_0000 + b * 0x1_0000 + c * 0x100 + d },
        ),
        _ => None,
    }
}

/// An address block: all addresses that share the first `prefix` bits of `addr`.
#[derive(Debug, Clone, Copy, PartialEq, Eq, Structural)]
pub struct Net {
    pub addr: u32,
    pub prefix: u8,
}

/// A number of so many digits at most, leading zeros among them, that is no greater than `max`.
pub open spec fn short_number(text: Seq<char>, most: nat, max: nat) -> Option<nat> {
    if 1 <= text.len() <= most && all_digits(text) && number(text) <= max {
        Some(number(text))
    } else {
        None
    }
}

/// The block that four dotted numbers, a slash and a prefix length denote.
pub open spec fn cidr_of(text: Seq<char>) -> Option<Net> {
    let halves = split_by(text, '/');
    let parts = split_by(halves[0], '.');
    let a = short_number(parts[0], 3, 255);
    let b = short_number(parts[1], 3, 255);
    let c = short_number(parts[2], 3, 255);
    let d = short_number(parts[3], 3, 255);
    let prefix = short_number(halves[1], 2, 32);
    if halves.len() == 2 && parts.len() == 4 && a is Some && b is Some && c is Some && d is Some
        && prefix is Some {
        Some(
            Net {
                addr: (a->0 * 0x100_0000 + b->0 * 0x1_0000 + c->0 * 0x100 + d->0) as u32,
                prefix: prefix->0 as u8,
            },
        )
    } else {
        None
    }
}

/// `ipnet::Ipv4Net::from_str` reads four numbers of one to three digits up to 255 with dots between
/// them, a slash, and a prefix length of one or two digits up to 32, and fails on any other text.
/// Numbers may start with zeros.
#[verifier::external_body]
fn parse_cidr(text: &str) -> (r: Option<Net>)
    ensures
        r == cidr_of(text@),
{
    match ipnet::Ipv4Net::from_str(text) {
        Ok(net) => Some(Net { addr: u32::from(net.addr()), prefix: net.prefix_len() }),
        Err(_) => None,
    }
}

/// Whether an address lies in a block.
pub open spec fn covers(net: Net, ip: Ipv4) -> bool {
    let size = pow2((32 - net.prefix) as nat);
    net.addr as nat / size == ip.bits as nat / size
}

fn net_contains(net: &Net, ip: Ipv4) -> (r: bool)
    requires
        net.prefix <= 32,
    ensures
        r == covers(*net, ip),
{
    proof {
        lemma2_to64();
    }
    if net.prefix == 0 {
        assert(net.addr as nat / 0x1_0000_0000nat == 0);
        assert(ip.bits as nat / 0x1_0000_0000nat == 0);
        return true;
    }
    let shift: u32 = 32 - net.prefix as u32;
    proof {
        lemma_u32_shr_is_div(net.addr, shift);
        lemma_u32_shr_is_div(ip.bits, shift);
    }
    (net.addr >> shift) == (ip.bits >> shift)
}

/// What an entry of the list stands for: a block where it holds a slash, otherwise one address.
pub open spec fn entry_net(token: Seq<char>) -> Option<Net> {
    if token.contains('/') {
        cidr_of(token)
    } else {
        match ipv4_of(token) {
            Some(ip) => Some(Net { addr: ip.bits, prefix: 32 }),
            None => None,
        }
    }
}

/// The blocks that entries stand for, blank entries left out, or the first entry that stands for
/// none.
pub open spec fn entries_parsed(pieces: Seq<Seq<char>>) -> std::result::Result<
    Seq<Net>,
    Seq<char>,
>
    decreases pieces.len(),
{
    if pieces.len() == 0 {
        Ok(Seq::empty())
    } else {
        match entries_parsed(pieces.drop_last()) {
            Err(token) => Err(token),
            Ok(nets) => {
                let token = trimmed(pieces.last());
                if token.len() == 0 {
                    Ok(nets)
                } else {
                    match entry_net(token) {
                        Some(net) => Ok(nets.push(net)),
                        None => Err(token),
                    }
                }
            },
        }
    }
}

/// An error in an early entry is the error of the whole list.
proof fn lemma_first_error(pieces: Seq<Seq<char>>, n: int)
    requires
        0 <= n <= pieces.len(),
        entries_parsed(pieces.take(n)) is Err,
    ensures
        entries_parsed(pieces) == entries_parsed(pieces.take(n)),
    decreases pieces.len() - n,
{
    if n < pieces.len() {
        assert(pieces.take(n + 1).drop_last() =~= pieces.take(n));
        lemma_first_error(pieces, n + 1);
    } else {
        assert(pieces.take(n) =~= pieces);
    }
}

/// The addresses that may read: those in one of the listed blocks, so an empty list admits none.
#[derive(Debug)]
pub struct IpAllowlist {
    nets: Vec<Net>,
}

impl View for IpAllowlist {
    type V = Seq<Net>;

    closed spec fn view(&self) -> Seq<Net> {
        self.nets@
    }
}

/// Whether some listed block covers the address.
pub open spec fn admits(nets: Seq<Net>, ip: Ipv4) -> bool {
    exists|i: int| 0 <= i < nets.len() && covers(#[trigger] nets[i], ip)
}

impl IpAllowlist {
    #[verifier::type_invariant]
    spec fn valid_prefixes(self) -> bool {
        forall|i: int| 0 <= i < self.nets@.len() ==> (#[trigger] self.nets@[i]).prefix <= 32
    }

    /// Parses a list of addresses and blocks separated by commas.
    pub fn parse(spec: &str) -> (r: Result<Self>)
        ensures
            match entries_parsed(split_by(spec@, ',')) {
                Ok(nets) => r matches Ok(list) && list@ == nets,
                Err(token) => r matches Err(Error::InvalidAllowlist(text)) && text@ == token,
            },
    {
        let pieces = split(spec, ',');
        let ghost all = split_by(spec@, ',');
        let mut nets: Vec<Net> = Vec::new();
        let mut i: usize = 0;
        assert(all.take(0) =~= Seq::empty());
        while i < pieces.len()
            invariant
                i <= pieces@.len() == all.len(),
                all == split_by(spec@, ','),
                views(pieces@) == all,
                entries_parsed(all.take(i as int)) == Ok::<Seq<Net>, Seq<char>>(nets@),
                forall|j: int| 0 <= j < nets@.len() ==> (#[trigger] nets@[j]).prefix <= 32,
            decreases pieces@.len() - i,
        {
            let ghost next = all.take(i as int + 1);
            assert(next.drop_last() =~= all.take(i as int));
            assert(next.last() == views(pieces@)[i as int]);
            let token = trim(pieces[i].as_str());
            if !token.as_str().is_empty() {
                let net = if has_slash(token.as_str()) {
                    parse_cidr(token.as_str())
                } else {
                    match parse_ipv4(token.as_str()) {
                        Some(ip) => Some(Net { addr: ip.bits, prefix: 32 }),
                        None => None,
                    }
                };
                match net {
                    Some(net) => nets.push(net),
                    None => {
                        proof {
                            lemma_first_error(all, i as int + 1);
                        }
                        return Err(Error::InvalidAllowlist(token));
                    },
                }
            }
            i = i + 1;
        }
        assert(all.take(i as int) =~= all);
        Ok(IpAllowlist { nets })
    }

    pub fn is_empty(&self) -> (r: bool)
        ensures
            r == (self@.len() == 0),
    {
        self.nets.len() == 0
    }

    pub fn len(&self) -> (r: usize)
        ensures
            r == self@.len(),
    {
        self.nets.len()
    }

    /// Whether an address may read.
    pub fn contains(&self, ip: Ipv4) -> (r: bool)
        ensures
            r == admits(self@, ip),
    {
        proof {
            use_type_invariant(self);
        }
        let mut i: usize = 0;
        while i < self.nets.len()
            invariant
                i <= self.nets@.len(),
                forall|j: int| 0 <= j < self.nets@.len() ==> (#[trigger] self.nets@[j]).prefix <= 32,
                forall|j: int| 0 <= j < i ==> !covers(#[trigger] self.nets@[j], ip),
            decreases self.nets@.len() - i,
        {
            if net_contains(&self.nets[i], ip) {
                return true;
            }
            i = i + 1;
        }
        false
    }
}

fn has_slash(text: &str) -> (r: bool)
    ensures
        r == text@.contains('/'),
{
    let chars = chars_of(text);
    let mut i: usize = 0;
    while i < chars.len()
        invariant
            i <= chars@.len(),
            chars@ == text@,
            forall|j: int| 0 <= j < i ==> chars@[j] != '/',
        decreases chars@.len() - i,
    {
        if chars[i] == '/' {
            return true;
        }
        i = i + 1;
    }
    false
}

impl Clone for IpAllowlist {
    fn clone(&self) -> (r: Self)
        ensures
            r@ == self@,
    {
        proof {
            use_type_invariant(self);
        }
        let nets = self.nets.clone();
        assert(nets@ =~= self.nets@);
        IpAllowlist { nets }
    }
}

impl Default for IpAllowlist {
    fn default() -> (r: Self)
        ensures
            r@.len() == 0,
    {
        IpAllowlist { nets: Vec::new() }
    }
}

/// An empty list admits nobody.
pub proof fn law_empty_list_denies_all(ip: Ipv4)
    ensures
        !admits(Seq::empty(), ip),
{
}

/// A list of blank entries only is empty.
pub proof fn law_blank_entries_are_ignored(pieces: Seq<Seq<char>>)
    requires
        forall|i: int| 0 <= i < pieces.len() ==> trimmed(#[trigger] pieces[i]).len() == 0,
    ensures
        entries_parsed(pieces) == Ok::<Seq<Net>, Seq<char>>(Seq::empty()),
    decreases pieces.len(),
{
    if pieces.len() > 0 {
        let front = pieces.drop_last();
        assert forall|i: int| 0 <= i < front.len() implies trimmed(#[trigger] front[i]).len()
            == 0 by {
            assert(front[i] == pieces[i]);
        }
        law_blank_entries_are_ignored(front);
        assert(pieces[pieces.len() - 1] == pieces.last());
    }
}

/// A block with a prefix of 32 bits is the one address: an entry without a prefix admits exactly
/// the address it names.
pub proof fn law_full_prefix_is_one_host(addr: u32, ip: Ipv4)
    ensures
        covers(Net { addr, prefix: 32 }, ip) <==> ip.bits == addr,
{
    lemma2_to64();
    assert(pow2((32 - 32u8) as nat) == 1);
    assert(addr as nat / 1 == addr);
    assert(ip.bits as nat / 1 == ip.bits);
}

proof fn lemma_one_piece(text: Seq<char>, sep: char)
    requires
        !text.contains(sep),
    ensures
        split_by(text, sep) == seq![text],
    decreases text.len(),
{
    if text.len() > 0 {
        let front = text.drop_last();
        assert(text[text.len() - 1] == text.last());
        assert forall|i: int| 0 <= i < front.len() implies front[i] != sep by {
            assert(text[i] == front[i]);
        }
        lemma_one_piece(front, sep);
        assert(front.push(text.last()) =~= text);
        assert(split_by(text, sep) =~= seq![text]);
    } else {
        assert(text =~= Seq::empty());
    }
}

proof fn lemma_piece_with(text: Seq<char>, sep: char, c: char)
    requires
        text.contains(c),
        c != sep,
    ensures
        exists|i: int|
            0 <= i < split_by(text, sep).len() && (#[trigger] split_by(text, sep)[i]).contains(c),
    decreases text.len(),
{
    let front = text.drop_last();
    let before = split_by(front, sep);
    let pieces = split_by(text, sep);
    lemma_split_by_nonempty(front, sep);
    if text.last() == c {
        let last = pieces.len() - 1;
        assert(pieces[last][pieces[last].len() - 1] == c);
        assert(pieces[last].contains(c));
    } else {
        let at = choose|i: int| 0 <= i < text.len() && text[i] == c;
        assert(front[at] == c);
        lemma_piece_with(front, sep, c);
        let i = choose|i: int| 0 <= i < before.len() && (#[trigger] before[i]).contains(c);
        let j = choose|j: int| 0 <= j < before[i].len() && before[i][j] == c;
        assert(pieces[i][j] == c);
        assert(pieces[i].contains(c));
    }
}

/// An address with a prefix of 32 bits stands for the same as the address alone.
pub proof fn law_full_prefix_entry_is_the_address(text: Seq<char>)
    requires
        ipv4_of(text) is Some,
    ensures
        entry_net(text + "/32"@) == entry_net(text),
        entry_net(text) == Some(Net { addr: ipv4_of(text)->0.bits, prefix: 32 }),
{
    reveal_strlit("/32");
    let parts = split_by(text, '.');
    assert(!text.contains('/')) by {
        if text.contains('/') {
            lemma_piece_with(text, '.', '/');
            let i = choose|i: int| 0 <= i < parts.len() && (#[trigger] parts[i]).contains('/');
            let j = choose|j: int| 0 <= j < parts[i].len() && parts[i][j] == '/';
            assert(octet(parts[i]) is Some);
            assert(is_digit(parts[i][j]));
        }
    }
    lemma_one_piece(text, '/');
    let t1 = text.push('/');
    let t2 = t1.push('3');
    let t3 = t2.push('2');
    assert(text + "/32"@ =~= t3);
    assert(t3.drop_last() =~= t2 && t2.drop_last() =~= t1 && t1.drop_last() =~= text);
    assert(split_by(t1, '/') =~= seq![text, Seq::empty()]);
    assert(split_by(t2, '/') =~= seq![text, seq!['3']]);
    assert(seq!['3'].push('2') =~= seq!['3', '2']);
    assert(split_by(t3, '/') =~= seq![text, seq!['3', '2']]);
    assert(t3[text.len() as int] == '/');
    let prefix = seq!['3', '2'];
    assert(prefix.drop_last() =~= seq!['3']);
    assert(seq!['3'].drop_last() =~= Seq::<char>::empty());
    reveal_with_fuel(number, 3);
    assert(number(prefix) == 32);
    assert(short_number(prefix, 2, 32) == Some(32nat));
}

/// A block is the range from its first to its last address.
pub proof fn law_block_is_a_range(net: Net, ip: Ipv4)
    requires
        net.prefix <= 32,
    ensures
        ({
            let size = pow2((32 - net.prefix) as nat);
            let first = net.addr as nat / size * size;
            covers(net, ip) <==> first <= ip.bits < first + size
        }),
{
    let size = pow2((32 - net.prefix) as nat);
    lemma_pow2_pos((32 - net.prefix) as nat);
    let a = net.addr as nat;
    let b = ip.bits as nat;
    assert(a / size == b / size <==> a / size * size <= b < a / size * size + size)
        by (nonlinear_arith)
        requires
            size > 0,
    ;
}

} // verus!
