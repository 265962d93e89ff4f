//! Internet addresses as plain numbers.

use vstd::prelude::*;

use crate::text::{
    a_separator_splits_a_text, append_numeral, is_digit_of, numeral, numerals_denote_their_number,
    numerals_tell_numbers_apart,
};

verus! {

/// An IPv4 or IPv6 address; the number is the address read as one big-endian
/// integer.
#[derive(Clone, Copy, Debug, PartialEq, Eq, Structural)]
pub enum IpAddr {
    V4(u32),
    V6(u128),
}

/// An IPv4 endpoint.
#[derive(Clone, Copy, Debug, PartialEq, Eq, Structural)]
pub struct SocketAddrV4 {
    pub ip: u32,
    pub port: u16,
}

/// An IPv6 endpoint.
#[derive(Clone, Copy, Debug, PartialEq, Eq, Structural)]
pub struct SocketAddrV6 {
    pub ip: u128,
    pub port: u16,
    pub flowinfo: u32,
    pub scope_id: u32,
}

/// An endpoint. Two endpoints are the same when every field agrees, for IPv6
/// the flow label and the scope as well.
#[derive(Clone, Copy, Debug, PartialEq, Eq, Structural)]
pub enum SocketAddr {
    V4(SocketAddrV4),
    V6(SocketAddrV6),
}

impl SocketAddr {
    /// The endpoint with the address and the port, without flow label and scope.
    pub open spec fn plain(ip: IpAddr, port: u16) -> SocketAddr {
        match ip {
            IpAddr::V4(ip) => SocketAddr::V4(SocketAddrV4 { ip, port }),
            IpAddr::V6(ip) => SocketAddr::V6(
                SocketAddrV6 { ip, port, flowinfo: 0, scope_id: 0 },
            ),
        }
    }

    /// The address of the endpoint.
    pub open spec fn spec_ip(self) -> IpAddr {
        match self {
            SocketAddr::V4(address) => IpAddr::V4(address.ip),
            SocketAddr::V6(address) => IpAddr::V6(address.ip),
        }
    }

    /// The port of the endpoint.
    pub open spec fn spec_port(self) -> u16 {
        match self {
            SocketAddr::V4(address) => address.port,
            SocketAddr::V6(address) => address.port,
        }
    }

    /// The endpoint with the address and the port, without flow label and scope.
    pub fn new(ip: IpAddr, port: u16) -> (address: SocketAddr)
        ensures
            address == SocketAddr::plain(ip, port),
    {
        match ip {
            IpAddr::V4(ip) => SocketAddr::V4(SocketAddrV4 { ip, port }),
            IpAddr::V6(ip) => SocketAddr::V6(
                SocketAddrV6 { ip, port, flowinfo: 0, scope_id: 0 },
            ),
        }
    }

    /// The address of the endpoint.
    pub fn ip(&self) -> (ip: IpAddr)
        ensures
            ip == self.spec_ip(),
    {
        match self {
            SocketAddr::V4(address) => IpAddr::V4(address.ip),
            SocketAddr::V6(address) => IpAddr::V6(address.ip),
        }
    }

    /// The port of the endpoint.
    pub fn port(&self) -> (port: u16)
        ensures
            port == self.spec_port(),
    {
        match self {
            SocketAddr::V4(address) => address.port,
            SocketAddr::V6(address) => address.port,
        }
    }

    /// Whether it is an IPv4 endpoint.
    pub fn is_ipv4(&self) -> (result: bool)
        ensures
            result == (self is V4),
    {
        match self {
            SocketAddr::V4(_) => true,
            SocketAddr::V6(_) => false,
        }
    }
}

/// An IPv4 address in dotted notation.
pub open spec fn ipv4_text(ip: int) -> Seq<char> {
    numeral((ip / 0x100_0000) as nat, 10) + seq!['.'] + numeral(
        (ip / 0x1_0000 % 0x100) as nat,
        10,
    ) + seq!['.'] + numeral((ip / 0x100 % 0x100) as nat, 10) + seq!['.'] + numeral(
        (ip % 0x100) as nat,
        10,
    )
}

/// The eight 16-bit groups of an IPv6 address.
pub open spec fn segments(ip: int) -> Seq<int> {
    seq![
        ip / 0x1_0000_0000_0000_0000_0000_0000_0000,
        ip / 0x1_0000_0000_0000_0000_0000_0000 % 0x1_0000,
        ip / 0x1_0000_0000_0000_0000_0000 % 0x1_0000,
        ip / 0x1_0000_0000_0000_0000 % 0x1_0000,
        ip / 0x1_0000_0000_0000 % 0x1_0000,
        ip / 0x1_0000_0000 % 0x1_0000,
        ip / 0x1_0000 % 0x1_0000,
        ip % 0x1_0000,
    ]
}

/// How many groups from `at` on are zero, without a gap.
pub open spec fn zero_run(groups: Seq<int>, at: int) -> int
    decreases groups.len() - at,
{
    if 0 <= at < groups.len() && groups[at] == 0 {
        1 + zero_run(groups, at + 1)
    } else {
        0
    }
}

/// Where the longest run of zero groups starts, among starts below `end`; the
/// first of several as long.
pub open spec fn longest_run(groups: Seq<int>, end: nat) -> int
    decreases end,
{
    if end == 0 {
        0
    } else {
        let best = longest_run(groups, (end - 1) as nat);
        if zero_run(groups, end - 1) > zero_run(groups, best) {
            end - 1
        } else {
            best
        }
    }
}

/// The groups in hexadecimal, with colons between them.
pub open spec fn groups_text(groups: Seq<int>) -> Seq<char>
    decreases groups.len(),
{
    if groups.len() == 0 {
        Seq::empty()
    } else if groups.len() == 1 {
        numeral(groups[0] as nat, 16)
    } else {
        groups_text(groups.drop_last()) + seq![':'] + numeral(groups.last() as nat, 16)
    }
}

/// An IPv6 address in its canonical notation: hexadecimal groups, the first of
/// the longest runs of two or more zero groups written `::`, and an address that
/// maps an IPv4 address written with dots at the end.
pub open spec fn ipv6_text(ip: int) -> Seq<char> {
    let groups = segments(ip);
    let start = longest_run(groups, 8);
    let len = zero_run(groups, start);
    if ip / 0x1_0000_0000 == 0xffff {
        seq![':', ':', 'f', 'f', 'f', 'f', ':'] + ipv4_text(ip % 0x1_0000_0000)
    } else if len > 1 {
        groups_text(groups.take(start)) + seq![':', ':'] + groups_text(groups.skip(start + len))
    } else {
        groups_text(groups)
    }
}

/// An address as people write it.
pub open spec fn ip_text(ip: IpAddr) -> Seq<char> {
    match ip {
        IpAddr::V4(ip) => ipv4_text(ip as int),
        IpAddr::V6(ip) => ipv6_text(ip as int),
    }
}

/// The values of the groups.
spec fn values(groups: Seq<u16>) -> Seq<int> {
    groups.map_values(|group: u16| group as int)
}

fn append_ipv4(text: &mut String, ip: u32)
    ensures
        final(text)@ == old(text)@ + ipv4_text(ip as int),
{
    let ghost before = text@;
    append_numeral(text, (ip / 0x100_0000) as u128, 10);
    text.push('.');
    append_numeral(text, (ip / 0x1_0000 % 0x100) as u128, 10);
    text.push('.');
    append_numeral(text, (ip / 0x100 % 0x100) as u128, 10);
    text.push('.');
    append_numeral(text, (ip % 0x100) as u128, 10);
    assert(text@ == before + ipv4_text(ip as int));
}

fn split_groups(ip: u128) -> (groups: Vec<u16>)
    ensures
        groups.len() == 8,
        values(groups@) == segments(ip as int),
{
    let mut groups: Vec<u16> = Vec::new();
    groups.push((ip / 0x1_0000_0000_0000_0000_0000_0000_0000) as u16);
    groups.push((ip / 0x1_0000_0000_0000_0000_0000_0000 % 0x1_0000) as u16);
    groups.push((ip / 0x1_0000_0000_0000_0000_0000 % 0x1_0000) as u16);
    groups.push((ip / 0x1_0000_0000_0000_0000 % 0x1_0000) as u16);
    groups.push((ip / 0x1_0000_0000_0000 % 0x1_0000) as u16);
    groups.push((ip / 0x1_0000_0000 % 0x1_0000) as u16);
    groups.push((ip / 0x1_0000 % 0x1_0000) as u16);
    groups.push((ip % 0x1_0000) as u16);
    assert(values(groups@) == segments(ip as int));
    groups
}

fn count_zero_run(groups: &Vec<u16>, at: usize) -> (len: usize)
    requires
        at <= groups.len(),
    ensures
        len == zero_run(values(groups@), at as int),
        at + len <= groups.len(),
    decreases groups.len() - at,
{
    if at < groups.len() && groups[at] == 0 {
        1 + count_zero_run(groups, at + 1)
    } else {
        0
    }
}

fn append_groups(text: &mut String, groups: &Vec<u16>, start: usize, end: usize)
    requires
        start <= end <= groups.len(),
    ensures
        final(text)@ == old(text)@ + groups_text(
            values(groups@).subrange(start as int, end as int),
        ),
{
    let ghost before = text@;
    let ghost all = values(groups@);
    let mut at: usize = start;
    assert(all.subrange(start as int, start as int) == Seq::<int>::empty());
    while at < end
        invariant
            start <= at <= end <= groups.len(),
            all == values(groups@),
            text@ == before + groups_text(all.subrange(start as int, at as int)),
        decreases end - at,
    {
        let ghost next = all.subrange(start as int, at + 1);
        proof {
            assert(next.drop_last() == all.subrange(start as int, at as int));
            assert(next.last() == groups@[at as int]);
        }
        if at > start {
            text.push(':');
        }
        append_numeral(text, groups[at] as u128, 16);
        assert(text@ == before + groups_text(next));
        at += 1;
    }
}

fn append_ipv6(text: &mut String, ip: u128)
    ensures
        final(text)@ == old(text)@ + ipv6_text(ip as int),
{
    let ghost before = text@;
    if ip / 0x1_0000_0000 == 0xffff {
        text.push(':');
        text.push(':');
        text.push('f');
        text.push('f');
        text.push('f');
        text.push('f');
        text.push(':');
        append_ipv4(text, (ip % 0x1_0000_0000) as u32);
        assert(text@ == before + ipv6_text(ip as int));
        return;
    }
    let groups = split_groups(ip);
    let ghost all = values(groups@);
    let mut best: usize = 0;
    let mut best_len: usize = count_zero_run(&groups, 0);
    let mut at: usize = 0;
    while at < 8
        invariant
            at <= 8,
            groups.len() == 8,
            all == values(groups@),
            best < 8,
            best == longest_run(all, at as nat),
            best_len == zero_run(all, best as int),
            best + best_len <= 8,
        decreases 8 - at,
    {
        let len: usize = count_zero_run(&groups, at);
        if len > best_len {
            best = at;
            best_len = len;
        }
        at += 1;
    }
    if best_len > 1 {
        append_groups(text, &groups, 0, best);
        text.push(':');
        text.push(':');
        append_groups(text, &groups, best + best_len, 8);
        proof {
            assert(all.subrange(0, best as int) == all.take(best as int));
            assert(all.subrange(best + best_len, 8) == all.skip(best + best_len));
            assert(text@ == before + ipv6_text(ip as int));
        }
    } else {
        append_groups(text, &groups, 0, 8);
        assert(all.subrange(0, 8) == all);
    }
}

/// Appends an address as people write it.
pub fn append_ip(text: &mut String, ip: IpAddr)
    ensures
        final(text)@ == old(text)@ + ip_text(ip),
{
    match ip {
        IpAddr::V4(ip) => append_ipv4(text, ip),
        IpAddr::V6(ip) => append_ipv6(text, ip),
    }
}

/// An endpoint keeps the address and the port that it was made of, an IPv6
/// endpoint without flow label and scope.
pub proof fn endpoints_keep_their_parts(ip: IpAddr, port: u16, four: SocketAddrV4, six: SocketAddrV6)
    ensures
        SocketAddr::plain(ip, port).spec_ip() == ip,
        SocketAddr::plain(ip, port).spec_port() == port,
        SocketAddr::plain(ip, port) is V4 <==> ip is V4,
        SocketAddr::plain(ip, port) matches SocketAddr::V6(address) ==> address.flowinfo == 0
            && address.scope_id == 0,
        SocketAddr::V4(four).spec_ip() == IpAddr::V4(four.ip),
        SocketAddr::V4(four).spec_port() == four.port,
        SocketAddr::V6(six).spec_ip() == IpAddr::V6(six.ip),
        SocketAddr::V6(six).spec_port() == six.port,
{
}

/// The text of an IPv4 address reads back: four decimal numbers below 256 with
/// dots between them, which make up the address, the first weighing most.
pub proof fn ipv4_texts_read_back(ip: u32) -> (parts: (nat, nat, nat, nat))
    ensures
        parts.0 < 256 && parts.1 < 256 && parts.2 < 256 && parts.3 < 256,
        ((parts.0 * 256 + parts.1) * 256 + parts.2) * 256 + parts.3 == ip,
        ip_text(IpAddr::V4(ip)) == numeral(parts.0, 10) + seq!['.'] + numeral(parts.1, 10) + seq![
            '.',
        ] + numeral(parts.2, 10) + seq!['.'] + numeral(parts.3, 10),
{
    let ip = ip as int;
    (
        (ip / 0x100_0000) as nat,
        (ip / 0x1_0000 % 0x100) as nat,
        (ip / 0x100 % 0x100) as nat,
        (ip % 0x100) as nat,
    )
}

/// No character of a decimal numeral is the given other character.
proof fn lemma_numeral_lacks(value: nat, c: char)
    requires
        !is_digit_of(c, 10),
    ensures
        forall|i: int| 0 <= i < numeral(value, 10).len() ==> #[trigger] numeral(value, 10)[i] != c,
{
    numerals_denote_their_number(value, 10);
    assert forall|i: int| 0 <= i < numeral(value, 10).len() implies #[trigger] numeral(value, 10)[i]
        != c by {
        assert(is_digit_of(numeral(value, 10)[i], 10));
    }
}

/// Whether no character of the text is a dot.
spec fn dotless(text: Seq<char>) -> bool {
    forall|i: int| 0 <= i < text.len() ==> #[trigger] text[i] != '.'
}

/// The part before the first dot can be told from the whole.
proof fn lemma_dot_splits(left: Seq<char>, left_rest: Seq<char>, right: Seq<char>, right_rest: Seq<char>)
    requires
        dotless(left),
        dotless(right),
        left + (seq!['.'] + left_rest) == right + (seq!['.'] + right_rest),
    ensures
        left == right,
        left_rest == right_rest,
{
    assert(left + seq!['.'] + left_rest == left + (seq!['.'] + left_rest));
    assert(right + seq!['.'] + right_rest == right + (seq!['.'] + right_rest));
    a_separator_splits_a_text(left, left_rest, right, right_rest, '.');
}

/// Four parts with dots between them, put together from the right.
proof fn lemma_dotted(a: Seq<char>, b: Seq<char>, c: Seq<char>, d: Seq<char>)
    ensures
        a + seq!['.'] + b + seq!['.'] + c + seq!['.'] + d == a + (seq!['.'] + (b + (seq!['.'] + (c
            + (seq!['.'] + d))))),
{
}

/// Different IPv4 addresses have different texts.
pub proof fn ipv4_texts_tell_addresses_apart(left: u32, right: u32)
    requires
        ip_text(IpAddr::V4(left)) == ip_text(IpAddr::V4(right)),
    ensures
        left == right,
{
    let l = ipv4_texts_read_back(left);
    let r = ipv4_texts_read_back(right);
    let (la, lb, lc, ld) = (numeral(l.0, 10), numeral(l.1, 10), numeral(l.2, 10), numeral(l.3, 10));
    let (ra, rb, rc, rd) = (numeral(r.0, 10), numeral(r.1, 10), numeral(r.2, 10), numeral(r.3, 10));
    lemma_numeral_lacks(l.0, '.');
    lemma_numeral_lacks(l.1, '.');
    lemma_numeral_lacks(l.2, '.');
    lemma_numeral_lacks(r.0, '.');
    lemma_numeral_lacks(r.1, '.');
    lemma_numeral_lacks(r.2, '.');
    lemma_same_parts(la, lb, lc, ld, ra, rb, rc, rd);
    numerals_tell_numbers_apart(l.0, r.0, 10);
    numerals_tell_numbers_apart(l.1, r.1, 10);
    numerals_tell_numbers_apart(l.2, r.2, 10);
    numerals_tell_numbers_apart(l.3, r.3, 10);
}

/// Four parts with dots between them can be told from the whole.
proof fn lemma_same_parts(
    la: Seq<char>,
    lb: Seq<char>,
    lc: Seq<char>,
    ld: Seq<char>,
    ra: Seq<char>,
    rb: Seq<char>,
    rc: Seq<char>,
    rd: Seq<char>,
)
    requires
        dotless(la) && dotless(lb) && dotless(lc),
        dotless(ra) && dotless(rb) && dotless(rc),
        la + seq!['.'] + lb + seq!['.'] + lc + seq!['.'] + ld == ra + seq!['.'] + rb + seq!['.'] + rc
            + seq!['.'] + rd,
    ensures
        la == ra && lb == rb && lc == rc && ld == rd,
{
    lemma_dotted(la, lb, lc, ld);
    lemma_dotted(ra, rb, rc, rd);
    lemma_dot_splits(la, lb + (seq!['.'] + (lc + (seq!['.'] + ld))), ra, rb + (seq!['.'] + (rc + (
    seq!['.'] + rd))));
    lemma_dot_splits(lb, lc + (seq!['.'] + ld), rb, rc + (seq!['.'] + rd));
    lemma_dot_splits(lc, ld, rc, rd);
}

/// The number that eight groups make up, the first weighing most.
pub open spec fn joined_groups(groups: Seq<int>) -> int
    decreases groups.len(),
{
    if groups.len() == 0 {
        0
    } else {
        joined_groups(groups.drop_last()) * 0x1_0000 + groups.last()
    }
}

/// An IPv6 address has eight groups of 16 bits, which make it up.
pub proof fn groups_make_up_the_address(ip: u128)
    ensures
        segments(ip as int).len() == 8,
        forall|i: int| 0 <= i < 8 ==> 0 <= #[trigger] segments(ip as int)[i] < 0x1_0000,
        joined_groups(segments(ip as int)) == ip,
{
    let ip = ip as int;
    let groups = segments(ip);
    lemma_eight_joined(groups);
    let b = ip / 0x1_0000;
    let c = b / 0x1_0000;
    let d = c / 0x1_0000;
    let e = d / 0x1_0000;
    let f = e / 0x1_0000;
    let g = f / 0x1_0000;
    assert(c == ip / 0x1_0000_0000);
    assert(d == ip / 0x1_0000_0000_0000);
    assert(e == ip / 0x1_0000_0000_0000_0000);
    assert(f == ip / 0x1_0000_0000_0000_0000_0000);
    assert(g == ip / 0x1_0000_0000_0000_0000_0000_0000);
    assert(g / 0x1_0000 == ip / 0x1_0000_0000_0000_0000_0000_0000_0000);
    assert(groups[0] * 0x1_0000 + groups[1] == g);
    assert(g * 0x1_0000 + groups[2] == f);
    assert(f * 0x1_0000 + groups[3] == e);
    assert(e * 0x1_0000 + groups[4] == d);
    assert(d * 0x1_0000 + groups[5] == c);
    assert(c * 0x1_0000 + groups[6] == b);
    assert(b * 0x1_0000 + groups[7] == ip);
}

proof fn lemma_eight_joined(groups: Seq<int>)
    requires
        groups.len() == 8,
    ensures
        joined_groups(groups) == ((((((groups[0] * 0x1_0000 + groups[1]) * 0x1_0000 + groups[2])
            * 0x1_0000 + groups[3]) * 0x1_0000 + groups[4]) * 0x1_0000 + groups[5]) * 0x1_0000
            + groups[6]) * 0x1_0000 + groups[7],
{
    reveal_with_fuel(joined_groups, 9);
}

/// Groups are written in hexadecimal, each without leading zeros, with one colon
/// between any two neighbours.
pub proof fn groups_are_joined_with_colons(front: Seq<int>, back: Seq<int>, group: int)
    requires
        front.len() > 0,
        back.len() > 0,
    ensures
        groups_text(seq![group]) == numeral(group as nat, 16),
        groups_text(Seq::empty()) == Seq::<char>::empty(),
        groups_text(front + back) == groups_text(front) + seq![':'] + groups_text(back),
    decreases back.len(),
{
    let all = front + back;
    assert(all.last() == back.last());
    assert(all.drop_last() == front + back.drop_last());
    if back.len() == 1 {
        assert(front + back.drop_last() == front);
    } else {
        groups_are_joined_with_colons(front, back.drop_last(), group);
        assert(groups_text(all) == groups_text(front) + seq![':'] + groups_text(back));
    }
}

/// Whether the groups from `start` on, `len` of them, are all zero.
pub open spec fn all_zero(groups: Seq<int>, start: int, len: int) -> bool {
    &&& 0 <= start && 0 <= len && start + len <= groups.len()
    &&& forall|i: int| start <= i < start + len ==> #[trigger] groups[i] == 0
}

proof fn lemma_zero_run(groups: Seq<int>, at: int)
    requires
        0 <= at <= groups.len(),
    ensures
        all_zero(groups, at, zero_run(groups, at)),
        forall|len: int| #[trigger] all_zero(groups, at, len) ==> len <= zero_run(groups, at),
    decreases groups.len() - at,
{
    if at < groups.len() && groups[at] == 0 {
        lemma_zero_run(groups, at + 1);
        assert forall|len: int| #[trigger] all_zero(groups, at, len) implies len <= zero_run(
            groups,
            at,
        ) by {
            if len > 0 {
                assert(all_zero(groups, at + 1, len - 1));
            }
        }
    } else {
        assert forall|len: int| #[trigger] all_zero(groups, at, len) implies len <= 0 by {
            if len > 0 {
                assert(groups[at] == 0);
            }
        }
    }
}

proof fn lemma_longest_run(groups: Seq<int>, end: nat)
    requires
        0 < end <= groups.len(),
    ensures
        0 <= longest_run(groups, end) < end,
        forall|start: int|
            0 <= start < end ==> #[trigger] zero_run(groups, start) <= zero_run(
                groups,
                longest_run(groups, end),
            ),
        forall|start: int|
            0 <= start < longest_run(groups, end) ==> #[trigger] zero_run(groups, start)
                < zero_run(groups, longest_run(groups, end)),
    decreases end,
{
    reveal_with_fuel(longest_run, 2);
    if end > 1 {
        lemma_longest_run(groups, (end - 1) as nat);
    }
}

/// The text of an IPv6 address is its canonical one: of the runs of two or more
/// zero groups the longest, the first of several as long, is written `::`, and
/// the groups before and behind it in hexadecimal with colons between them;
/// without such a run all eight groups are. An address that maps an IPv4 address
/// is written `::ffff:` and that address.
pub proof fn ipv6_texts_are_canonical(ip: u128) -> (run: (int, int))
    ensures
        ({
            let groups = segments(ip as int);
            let text = ip_text(IpAddr::V6(ip));
            let (start, len) = run;
            &&& all_zero(groups, start, len)
            &&& len != 1
            &&& forall|other: int, other_len: int| #[trigger]
                all_zero(groups, other, other_len) && other_len > 1 ==> other_len <= len && (
                other_len == len ==> start <= other)
            &&& if all_zero(groups, 0, 5) && groups[5] == 0xffff {
                text == seq![':', ':', 'f', 'f', 'f', 'f', ':'] + ip_text(
                    IpAddr::V4((groups[6] * 0x1_0000 + groups[7]) as u32),
                )
            } else if len > 1 {
                text == groups_text(groups.take(start)) + seq![':', ':'] + groups_text(
                    groups.skip(start + len),
                )
            } else {
                text == groups_text(groups)
            }
        }),
{
    groups_make_up_the_address(ip);
    let groups = segments(ip as int);
    let start = longest_run(groups, 8);
    let len = zero_run(groups, start);
    lemma_longest_run(groups, 8);
    lemma_zero_run(groups, start);
    assert forall|other: int, other_len: int| #[trigger]
        all_zero(groups, other, other_len) && other_len > 1 implies other_len <= len && (other_len
        == len ==> start <= other) by {
        lemma_zero_run(groups, other);
        assert(zero_run(groups, other) <= len);
        if other < start {
            assert(zero_run(groups, other) < len);
        }
    }
    lemma_mapped(ip);
    if len == 1 {
        assert(all_zero(groups, 0, 0));
        (0, 0)
    } else {
        (start, len)
    }
}

/// An address maps an IPv4 address when its first five groups are zero and the
/// sixth has all bits set.
proof fn lemma_mapped(ip: u128)
    ensures
        ip as int / 0x1_0000_0000 == 0xffff <==> all_zero(segments(ip as int), 0, 5) && segments(
            ip as int,
        )[5] == 0xffff,
        segments(ip as int)[6] * 0x1_0000 + segments(ip as int)[7] == ip as int % 0x1_0000_0000,
{
    let ip = ip as int;
    let groups = segments(ip);
    let high = ip / 0x1_0000_0000;
    assert(groups[5] == high % 0x1_0000);
    assert(groups[4] == high / 0x1_0000 % 0x1_0000);
    assert(groups[3] == high / 0x1_0000_0000 % 0x1_0000);
    assert(groups[2] == high / 0x1_0000_0000_0000 % 0x1_0000);
    assert(groups[1] == high / 0x1_0000_0000_0000_0000 % 0x1_0000);
    assert(groups[0] == high / 0x1_0000_0000_0000_0000_0000);
    if high == 0xffff {
        assert(all_zero(groups, 0, 5));
    }
    if all_zero(groups, 0, 5) && groups[5] == 0xffff {
        assert(groups[0] == 0 && groups[1] == 0 && groups[2] == 0 && groups[3] == 0 && groups[4]
            == 0);
    }
}

} // verus!
