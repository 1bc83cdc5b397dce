use vstd::prelude::*;

verus! {

/// An IPv4 address, as its four dotted-quad octets.
#[derive(Clone, Copy, Debug, PartialEq, Eq, Structural)]
pub struct Ipv4Address {
    pub o0: u8,
    pub o1: u8,
    pub o2: u8,
    pub o3: u8,
}

/// An IPv6 address, as its eight 16-bit groups.
#[derive(Clone, Copy, Debug, PartialEq, Eq, Structural)]
pub struct Ipv6Address {
    pub s0: u16,
    pub s1: u16,
    pub s2: u16,
    pub s3: u16,
    pub s4: u16,
    pub s5: u16,
    pub s6: u16,
    pub s7: u16,
}

/// An IP address of either family, held as plain numeric fields.
///
/// The textual forms are handled by [`parse_ip`] and [`format_ip`]; the
/// flow identifier compares addresses by their family and fields to pick a
/// canonical orientation.
#[derive(Clone, Copy, Debug, PartialEq, Eq, Structural)]
pub enum IpAddress {
    V4(Ipv4Address),
    V6(Ipv6Address),
}

impl Ipv6Address {
    /// The eight groups, most significant first.
    pub open spec fn spec_segments(self) -> Seq<u16> {
        seq![self.s0, self.s1, self.s2, self.s3, self.s4, self.s5, self.s6, self.s7]
    }

    /// Build an address from eight groups, most significant first.
    pub fn from_segments(v: &Vec<u16>) -> (r: Ipv6Address)
        requires
            v@.len() == 8,
        ensures
            r.spec_segments() == v@,
    {
        let r = Ipv6Address {
            s0: v[0],
            s1: v[1],
            s2: v[2],
            s3: v[3],
            s4: v[4],
            s5: v[5],
            s6: v[6],
            s7: v[7],
        };
        proof {
            assert(r.spec_segments() =~= v@);
        }
        r
    }
}

/// The decimal digit character for a value below ten.
pub open spec fn spec_dec_digit(d: int) -> char {
    if d == 0 {
        '0'
    } else if d == 1 {
        '1'
    } else if d == 2 {
        '2'
    } else if d == 3 {
        '3'
    } else if d == 4 {
        '4'
    } else if d == 5 {
        '5'
    } else if d == 6 {
        '6'
    } else if d == 7 {
        '7'
    } else if d == 8 {
        '8'
    } else {
        '9'
    }
}

/// The lowercase hexadecimal digit character for a value below sixteen.
pub open spec fn spec_hex_digit(d: int) -> char {
    if d < 10 {
        spec_dec_digit(d)
    } else if d == 10 {
        'a'
    } else if d == 11 {
        'b'
    } else if d == 12 {
        'c'
    } else if d == 13 {
        'd'
    } else if d == 14 {
        'e'
    } else {
        'f'
    }
}

/// The decimal digit string of a non-negative number, without leading
/// zeros.
pub open spec fn spec_dec(n: int) -> Seq<char>
    recommends
        n >= 0,
    decreases n,
{
    if n < 10 {
        seq![spec_dec_digit(n)]
    } else {
        spec_dec(n / 10).push(spec_dec_digit(n % 10))
    }
}

/// The lowercase hexadecimal digit string of a non-negative number, without
/// leading zeros.
pub open spec fn spec_hex(n: int) -> Seq<char>
    recommends
        n >= 0,
    decreases n,
{
    if n < 16 {
        seq![spec_hex_digit(n)]
    } else {
        spec_hex(n / 16).push(spec_hex_digit(n % 16))
    }
}

/// Append the decimal digit character of a value below ten.
fn push_dec_digit(out: &mut Vec<char>, d: u64)
    requires
        d < 10,
    ensures
        final(out)@ == old(out)@.push(spec_dec_digit(d as int)),
{
    let c = match d {
        0 => '0',
        1 => '1',
        2 => '2',
        3 => '3',
        4 => '4',
        5 => '5',
        6 => '6',
        7 => '7',
        8 => '8',
        _ => '9',
    };
    out.push(c);
}

/// Append the lowercase hexadecimal digit character of a value below
/// sixteen.
fn push_hex_digit(out: &mut Vec<char>, d: u32)
    requires
        d < 16,
    ensures
        final(out)@ == old(out)@.push(spec_hex_digit(d as int)),
{
    if d < 10 {
        push_dec_digit(out, d as u64);
    } else {
        let c = match d {
            10 => 'a',
            11 => 'b',
            12 => 'c',
            13 => 'd',
            14 => 'e',
            _ => 'f',
        };
        out.push(c);
    }
}

/// Append the decimal digit string of `n`.
pub fn push_dec(out: &mut Vec<char>, n: u64)
    ensures
        final(out)@ == old(out)@ + spec_dec(n as int),
    decreases n,
{
    if n < 10 {
        push_dec_digit(out, n);
        proof {
            assert(out@ =~= old(out)@ + spec_dec(n as int));
        }
    } else {
        push_dec(out, n / 10);
        push_dec_digit(out, n % 10);
        proof {
            assert(out@ =~= old(out)@ + spec_dec(n as int));
        }
    }
}

/// Append the lowercase hexadecimal digit string of `n`.
pub fn push_hex(out: &mut Vec<char>, n: u32)
    ensures
        final(out)@ == old(out)@ + spec_hex(n as int),
    decreases n,
{
    if n < 16 {
        push_hex_digit(out, n);
        proof {
            assert(out@ =~= old(out)@ + spec_hex(n as int));
        }
    } else {
        push_hex(out, n / 16);
        push_hex_digit(out, n % 16);
        proof {
            assert(out@ =~= old(out)@ + spec_hex(n as int));
        }
    }
}

/// The canonical text of an IPv4 address: the four octets in decimal, dot
/// separated.
pub open spec fn spec_format_v4(ip: Ipv4Address) -> Seq<char> {
    spec_dec(ip.o0 as int) + seq!['.'] + spec_dec(ip.o1 as int) + seq!['.'] + spec_dec(
        ip.o2 as int,
    ) + seq!['.'] + spec_dec(ip.o3 as int)
}

/// The canonical text of an IPv6 address used by this library: all eight
/// groups in lowercase hexadecimal without leading zeros, colon separated,
/// never compressed with a double colon.
pub open spec fn spec_format_v6(ip: Ipv6Address) -> Seq<char> {
    spec_hex(ip.s0 as int) + seq![':'] + spec_hex(ip.s1 as int) + seq![':'] + spec_hex(
        ip.s2 as int,
    ) + seq![':'] + spec_hex(ip.s3 as int) + seq![':'] + spec_hex(ip.s4 as int) + seq![':']
        + spec_hex(ip.s5 as int) + seq![':'] + spec_hex(ip.s6 as int) + seq![':'] + spec_hex(
        ip.s7 as int,
    )
}

/// The canonical text of an address.
pub open spec fn spec_format_ip(ip: IpAddress) -> Seq<char> {
    match ip {
        IpAddress::V4(v4) => spec_format_v4(v4),
        IpAddress::V6(v6) => spec_format_v6(v6),
    }
}

/// Append the canonical text of an address.
pub fn push_ip(out: &mut Vec<char>, ip: &IpAddress)
    ensures
        final(out)@ == old(out)@ + spec_format_ip(*ip),
{
    match ip {
        IpAddress::V4(v4) => {
            push_dec(out, v4.o0 as u64);
            out.push('.');
            push_dec(out, v4.o1 as u64);
            out.push('.');
            push_dec(out, v4.o2 as u64);
            out.push('.');
            push_dec(out, v4.o3 as u64);
            proof {
                assert(out@ =~= old(out)@ + spec_format_ip(*ip));
            }
        },
        IpAddress::V6(v6) => {
            push_hex(out, v6.s0 as u32);
            out.push(':');
            push_hex(out, v6.s1 as u32);
            out.push(':');
            push_hex(out, v6.s2 as u32);
            out.push(':');
            push_hex(out, v6.s3 as u32);
            out.push(':');
            push_hex(out, v6.s4 as u32);
            out.push(':');
            push_hex(out, v6.s5 as u32);
            out.push(':');
            push_hex(out, v6.s6 as u32);
            out.push(':');
            push_hex(out, v6.s7 as u32);
            proof {
                assert(out@ =~= old(out)@ + spec_format_ip(*ip));
            }
        },
    }
}

/// The canonical text of an address, as a character vector.
pub fn format_ip(ip: &IpAddress) -> (r: Vec<char>)
    ensures
        r@ == spec_format_ip(*ip),
{
    let mut out: Vec<char> = Vec::new();
    push_ip(&mut out, ip);
    proof {
        assert(out@ =~= spec_format_ip(*ip));
    }
    out
}


/// Whether `c` is a decimal digit.
pub open spec fn spec_is_digit(c: char) -> bool {
    48 <= c as u32 <= 57
}

/// The value of a decimal digit character.
pub open spec fn spec_dec_digit_val(c: char) -> int {
    c as u32 - 48
}

/// Whether `c` is a hexadecimal digit, of either case.
pub open spec fn spec_is_hex(c: char) -> bool {
    spec_is_digit(c) || (97 <= c as u32 <= 102) || (65 <= c as u32 <= 70)
}

/// The value of a hexadecimal digit character.
pub open spec fn spec_hex_digit_val(c: char) -> int {
    if spec_is_digit(c) {
        c as u32 - 48
    } else if 97 <= c as u32 {
        c as u32 - 87
    } else {
        c as u32 - 55
    }
}

/// The number denoted by a string of decimal digits, most significant
/// first.
pub open spec fn spec_dec_val(s: Seq<char>) -> int
    decreases s.len(),
{
    if s.len() == 0 {
        0
    } else {
        spec_dec_val(s.drop_last()) * 10 + spec_dec_digit_val(s.last())
    }
}

/// The number denoted by a string of hexadecimal digits, most significant
/// first.
pub open spec fn spec_hex_val(s: Seq<char>) -> int
    decreases s.len(),
{
    if s.len() == 0 {
        0
    } else {
        spec_hex_val(s.drop_last()) * 16 + spec_hex_digit_val(s.last())
    }
}

/// Whether every character of `s` is a decimal digit.
pub open spec fn spec_all_digits(s: Seq<char>) -> bool {
    forall|i: int| 0 <= i < s.len() ==> spec_is_digit(#[trigger] s[i])
}

/// Whether every character of `s` is a hexadecimal digit.
pub open spec fn spec_all_hex(s: Seq<char>) -> bool {
    forall|i: int| 0 <= i < s.len() ==> spec_is_hex(#[trigger] s[i])
}

/// Whether `s` is a valid dotted-quad octet: one to three digits, no
/// leading zero, value at most 255.
pub open spec fn spec_valid_octet(s: Seq<char>) -> bool {
    &&& 1 <= s.len() <= 3
    &&& spec_all_digits(s)
    &&& (s.len() > 1 ==> s[0] != '0')
    &&& spec_dec_val(s) <= 255
}

/// Whether `s` is a valid IPv6 group: one to four hexadecimal digits.
pub open spec fn spec_valid_group(s: Seq<char>) -> bool {
    1 <= s.len() <= 4 && spec_all_hex(s)
}

/// The position of the first occurrence of `sep` in `s`, or the length of
/// `s` when `sep` does not occur.
pub open spec fn spec_find(s: Seq<char>, sep: char) -> nat
    decreases s.len(),
{
    if s.len() == 0 {
        0
    } else if s[0] == sep {
        0
    } else {
        1 + spec_find(s.drop_first(), sep)
    }
}

/// What [`spec_find`] returns: the first occurrence when there is one, the
/// length of the string otherwise.
pub proof fn lemma_find_props(s: Seq<char>, sep: char)
    ensures
        spec_find(s, sep) <= s.len(),
        spec_find(s, sep) < s.len() ==> s[spec_find(s, sep) as int] == sep,
        forall|k: int| 0 <= k < spec_find(s, sep) ==> s[k] != sep,
        (forall|k: int| 0 <= k < s.len() ==> s[k] != sep) ==> spec_find(s, sep) == s.len(),
    decreases s.len(),
{
    if s.len() > 0 && s[0] != sep {
        lemma_find_props(s.drop_first(), sep);
        let d = s.drop_first();
        let f = spec_find(s, sep);
        let fd = spec_find(d, sep);
        assert forall|k: int| 0 <= k < f implies s[k] != sep by {
            if k > 0 {
                assert(d[k - 1] == s[k]);
            }
        }
        if forall|k: int| 0 <= k < s.len() ==> s[k] != sep {
            assert forall|k: int| 0 <= k < d.len() implies d[k] != sep by {
                assert(d[k] == s[k + 1]);
            }
            assert(fd == d.len());
        }
        if f < s.len() {
            assert(s[f as int] == d[fd as int]);
        }
    }
}

/// Splitting `s` at every occurrence of `sep`; the result always has at
/// least one part, and no part holds `sep`.
pub open spec fn spec_split(s: Seq<char>, sep: char) -> Seq<Seq<char>>
    decreases s.len(),
{
    let f = spec_find(s, sep);
    if f >= s.len() {
        seq![s]
    } else {
        seq![s.take(f as int)] + spec_split(s.skip(f as int + 1), sep)
    }
}

/// Finding in a string known to start with a `sep`-free prefix followed by
/// `sep` lands on that separator.
pub proof fn lemma_find_prefix(pre: Seq<char>, rest: Seq<char>, sep: char)
    requires
        forall|k: int| 0 <= k < pre.len() ==> pre[k] != sep,
    ensures
        spec_find(pre + seq![sep] + rest, sep) == pre.len(),
    decreases pre.len(),
{
    let s = pre + seq![sep] + rest;
    if pre.len() == 0 {
        assert(s[0] == sep);
    } else {
        lemma_find_prefix(pre.drop_first(), rest, sep);
        assert(s[0] != sep);
        assert(s.drop_first() =~= pre.drop_first() + seq![sep] + rest);
    }
}

/// Splitting a string made of a `sep`-free prefix, a separator and a rest
/// yields the prefix and then the split of the rest.
pub proof fn lemma_split_prefix(pre: Seq<char>, rest: Seq<char>, sep: char)
    requires
        forall|k: int| 0 <= k < pre.len() ==> pre[k] != sep,
    ensures
        spec_split(pre + seq![sep] + rest, sep) == seq![pre] + spec_split(rest, sep),
{
    let s = pre + seq![sep] + rest;
    lemma_find_prefix(pre, rest, sep);
    assert(s.take(pre.len() as int) =~= pre);
    assert(s.skip(pre.len() as int + 1) =~= rest);
}

/// Splitting a `sep`-free string yields that string as the only part.
pub proof fn lemma_split_whole(s: Seq<char>, sep: char)
    requires
        forall|k: int| 0 <= k < s.len() ==> s[k] != sep,
    ensures
        spec_split(s, sep) == seq![s],
{
    lemma_find_props(s, sep);
}


/// The position of the first occurrence of a double colon in `s`, or the
/// length of `s` when there is none.
pub open spec fn spec_find2(s: Seq<char>) -> nat
    decreases s.len(),
{
    if s.len() < 2 {
        s.len()
    } else if s[0] == ':' && s[1] == ':' {
        0
    } else {
        1 + spec_find2(s.drop_first())
    }
}

/// Whether `s` has no two adjacent colons.
pub open spec fn spec_no_double_colon(s: Seq<char>) -> bool {
    forall|k: int| 0 <= k < s.len() - 1 ==> !(#[trigger] s[k] == ':' && s[k + 1] == ':')
}

/// What [`spec_find2`] returns: the first double colon when there is one,
/// the length of the string otherwise.
pub proof fn lemma_find2_props(s: Seq<char>)
    ensures
        spec_find2(s) == s.len() || spec_find2(s) + 2 <= s.len(),
        spec_find2(s) + 2 <= s.len() ==> s[spec_find2(s) as int] == ':' && s[spec_find2(s)
            as int + 1] == ':',
        forall|k: int|
            0 <= k < spec_find2(s) && k + 1 < s.len() ==> !(#[trigger] s[k] == ':' && s[k + 1]
                == ':'),
        spec_no_double_colon(s) ==> spec_find2(s) == s.len(),
    decreases s.len(),
{
    if s.len() >= 2 && !(s[0] == ':' && s[1] == ':') {
        lemma_find2_props(s.drop_first());
        let d = s.drop_first();
        let f = spec_find2(s);
        let fd = spec_find2(d);
        assert forall|k: int| 0 <= k < f && k + 1 < s.len() implies !(#[trigger] s[k] == ':'
            && s[k + 1] == ':') by {
            if k > 0 {
                assert(d[k - 1] == s[k] && d[k] == s[k + 1]);
            }
        }
        if spec_no_double_colon(s) {
            assert forall|k: int| 0 <= k < d.len() - 1 implies !(#[trigger] d[k] == ':' && d[k
                + 1] == ':') by {
                assert(d[k] == s[k + 1] && d[k + 1] == s[k + 2]);
            }
            assert(fd == d.len());
        }
        if f + 2 <= s.len() {
            assert(s[f as int] == d[fd as int] && s[f as int + 1] == d[fd as int + 1]);
        }
    }
}

/// Whether every part of `parts` is a valid IPv6 group.
pub open spec fn spec_groups_valid(parts: Seq<Seq<char>>) -> bool {
    forall|i: int| 0 <= i < parts.len() ==> spec_valid_group(#[trigger] parts[i])
}

/// An IPv6 address from its eight groups, most significant first.
pub open spec fn spec_ipv6_from_seq(g: Seq<u16>) -> Ipv6Address
    recommends
        g.len() == 8,
{
    Ipv6Address {
        s0: g[0],
        s1: g[1],
        s2: g[2],
        s3: g[3],
        s4: g[4],
        s5: g[5],
        s6: g[6],
        s7: g[7],
    }
}

/// The group values of a sequence of parsed IPv6 group texts.
pub open spec fn spec_group_vals(parts: Seq<Seq<char>>) -> Seq<u16> {
    parts.map_values(|p: Seq<char>| spec_hex_val(p) as u16)
}

/// The IPv4 address denoted by `s`, if any: four dot-separated octets.
pub open spec fn spec_parse_v4(s: Seq<char>) -> Option<Ipv4Address> {
    let parts = spec_split(s, '.');
    if parts.len() == 4 && spec_valid_octet(parts[0]) && spec_valid_octet(parts[1])
        && spec_valid_octet(parts[2]) && spec_valid_octet(parts[3]) {
        Some(
            Ipv4Address {
                o0: spec_dec_val(parts[0]) as u8,
                o1: spec_dec_val(parts[1]) as u8,
                o2: spec_dec_val(parts[2]) as u8,
                o3: spec_dec_val(parts[3]) as u8,
            },
        )
    } else {
        None
    }
}

/// Whether the text holds a dot, marking a trailing embedded IPv4 form.
pub open spec fn spec_has_dot(p: Seq<char>) -> bool {
    exists|k: int| 0 <= k < p.len() && p[k] == '.'
}

/// The two 16-bit groups contributed by an embedded IPv4 tail.
pub open spec fn spec_v4_pair(a: Ipv4Address) -> Seq<u16> {
    seq![(a.o0 * 256 + a.o1) as u16, (a.o2 * 256 + a.o3) as u16]
}

/// The IPv6 address denoted by `s`, if any: eight colon-separated
/// hexadecimal groups, or fewer groups around one double colon standing for
/// the missing run of zero groups; the last group may instead be an
/// embedded dotted-quad IPv4 address, standing for the final two groups.
pub open spec fn spec_parse_v6(s: Seq<char>) -> Option<Ipv6Address> {
    let f = spec_find2(s);
    if f + 2 <= s.len() {
        let left = s.take(f as int);
        let right = s.skip(f as int + 2);
        let lparts = if left.len() == 0 {
            Seq::<Seq<char>>::empty()
        } else {
            spec_split(left, ':')
        };
        let rparts = if right.len() == 0 {
            Seq::<Seq<char>>::empty()
        } else {
            spec_split(right, ':')
        };
        if rparts.len() > 0 && spec_has_dot(rparts.last()) {
            let rhex = rparts.take(rparts.len() - 1);
            match spec_parse_v4(rparts.last()) {
                Some(v4) => {
                    if spec_groups_valid(lparts) && spec_groups_valid(rhex) && lparts.len()
                        + rhex.len() + 2 <= 7 {
                        let zeros = Seq::<u16>::new(
                            (8 - lparts.len() - rhex.len() - 2) as nat,
                            |i: int| 0u16,
                        );
                        Some(
                            spec_ipv6_from_seq(
                                spec_group_vals(lparts) + zeros + spec_group_vals(rhex)
                                    + spec_v4_pair(v4),
                            ),
                        )
                    } else {
                        None
                    }
                },
                None => None,
            }
        } else if spec_groups_valid(lparts) && spec_groups_valid(rparts) && lparts.len()
            + rparts.len() <= 7 {
            let zeros = Seq::<u16>::new((8 - lparts.len() - rparts.len()) as nat, |i: int| 0u16);
            Some(spec_ipv6_from_seq(spec_group_vals(lparts) + zeros + spec_group_vals(rparts)))
        } else {
            None
        }
    } else {
        let parts = spec_split(s, ':');
        if parts.len() > 0 && spec_has_dot(parts.last()) {
            let phex = parts.take(parts.len() - 1);
            match spec_parse_v4(parts.last()) {
                Some(v4) => {
                    if parts.len() == 7 && spec_groups_valid(phex) {
                        Some(spec_ipv6_from_seq(spec_group_vals(phex) + spec_v4_pair(v4)))
                    } else {
                        None
                    }
                },
                None => None,
            }
        } else if parts.len() == 8 && spec_groups_valid(parts) {
            Some(spec_ipv6_from_seq(spec_group_vals(parts)))
        } else {
            None
        }
    }
}

/// The address denoted by `s`, if any; a text is tried as IPv4 first, then
/// as IPv6 (no text is valid as both).
pub open spec fn spec_parse_ip(s: Seq<char>) -> Option<IpAddress> {
    match spec_parse_v4(s) {
        Some(v4) => Some(IpAddress::V4(v4)),
        None => match spec_parse_v6(s) {
            Some(v6) => Some(IpAddress::V6(v6)),
            None => None,
        },
    }
}


/// Decimal digit characters decode back to their value.
pub proof fn lemma_dec_digit_roundtrip(d: int)
    requires
        0 <= d < 10,
    ensures
        spec_is_digit(spec_dec_digit(d)),
        spec_dec_digit_val(spec_dec_digit(d)) == d,
        d >= 1 ==> spec_dec_digit(d) != '0',
{
}

/// Hexadecimal digit characters decode back to their value.
pub proof fn lemma_hex_digit_roundtrip(d: int)
    requires
        0 <= d < 16,
    ensures
        spec_is_hex(spec_hex_digit(d)),
        spec_hex_digit_val(spec_hex_digit(d)) == d,
{
}

/// The decimal digit string of a number is made of digits, has no leading
/// zero, decodes back to the number, and is as long as the number has
/// digits.
pub proof fn lemma_dec_roundtrip(n: int)
    requires
        0 <= n,
    ensures
        spec_all_digits(spec_dec(n)),
        spec_dec(n).len() >= 1,
        spec_dec_val(spec_dec(n)) == n,
        n >= 10 ==> spec_dec(n)[0] != '0',
        n >= 1 ==> spec_dec(n)[0] != '0',
        n < 10 ==> spec_dec(n).len() == 1,
        n < 100 ==> spec_dec(n).len() <= 2,
        n < 1000 ==> spec_dec(n).len() <= 3,
    decreases n,
{
    if n < 10 {
        lemma_dec_digit_roundtrip(n);
        assert(spec_dec(n).drop_last() =~= Seq::<char>::empty());
        assert(spec_dec_val(Seq::<char>::empty()) == 0);
        assert(spec_dec(n).last() == spec_dec_digit(n));
    } else {
        lemma_dec_roundtrip(n / 10);
        lemma_dec_digit_roundtrip(n % 10);
        let w = spec_dec(n);
        assert(w.drop_last() =~= spec_dec(n / 10));
        assert(w[0] == spec_dec(n / 10)[0]);
        assert(spec_dec_val(w) == spec_dec_val(spec_dec(n / 10)) * 10 + spec_dec_digit_val(
            spec_dec_digit(n % 10),
        ));
    }
}

/// The hexadecimal digit string of a number is made of hexadecimal digits,
/// decodes back to the number, and a group value fits in four digits.
pub proof fn lemma_hex_roundtrip(n: int)
    requires
        0 <= n,
    ensures
        spec_all_hex(spec_hex(n)),
        spec_hex(n).len() >= 1,
        spec_hex_val(spec_hex(n)) == n,
        n < 16 ==> spec_hex(n).len() == 1,
        n < 256 ==> spec_hex(n).len() <= 2,
        n < 4096 ==> spec_hex(n).len() <= 3,
        n < 65536 ==> spec_hex(n).len() <= 4,
    decreases n,
{
    if n < 16 {
        lemma_hex_digit_roundtrip(n);
        assert(spec_hex(n).drop_last() =~= Seq::<char>::empty());
        assert(spec_hex_val(Seq::<char>::empty()) == 0);
        assert(spec_hex(n).last() == spec_hex_digit(n));
    } else {
        lemma_hex_roundtrip(n / 16);
        lemma_hex_digit_roundtrip(n % 16);
        let w = spec_hex(n);
        assert(w.drop_last() =~= spec_hex(n / 16));
        assert(spec_hex_val(w) == spec_hex_val(spec_hex(n / 16)) * 16 + spec_hex_digit_val(
            spec_hex_digit(n % 16),
        ));
    }
}

/// A string of digits holds neither a dot nor a colon; a string of
/// hexadecimal digits likewise.
proof fn lemma_digits_free(w: Seq<char>)
    ensures
        spec_all_digits(w) ==> (forall|k: int| 0 <= k < w.len() ==> #[trigger] w[k] != '.'
            && w[k] != ':'),
        spec_all_hex(w) ==> (forall|k: int| 0 <= k < w.len() ==> #[trigger] w[k] != '.'
            && w[k] != ':'),
{
}

/// Concatenation preserves freedom from a character.
proof fn lemma_concat_free(a: Seq<char>, b: Seq<char>, c: char)
    requires
        forall|k: int| 0 <= k < a.len() ==> a[k] != c,
        forall|k: int| 0 <= k < b.len() ==> b[k] != c,
    ensures
        forall|k: int| 0 <= k < (a + b).len() ==> (a + b)[k] != c,
{
    assert forall|k: int| 0 <= k < (a + b).len() implies (a + b)[k] != c by {
        if k < a.len() {
            assert((a + b)[k] == a[k]);
        } else {
            assert((a + b)[k] == b[k - a.len()]);
        }
    }
}

/// Gluing a colon-free group in front of a well-shaped tail with a single
/// colon introduces no double colon.
proof fn lemma_no2_glue(pre: Seq<char>, rest: Seq<char>)
    requires
        pre.len() >= 1,
        forall|k: int| 0 <= k < pre.len() ==> pre[k] != ':',
        rest.len() >= 1,
        rest[0] != ':',
        spec_no_double_colon(rest),
    ensures
        spec_no_double_colon(pre + seq![':'] + rest),
        (pre + seq![':'] + rest)[0] != ':',
        (pre + seq![':'] + rest).len() >= 1,
{
    let t = pre + seq![':'] + rest;
    let p = pre.len() as int;
    assert forall|k: int| 0 <= k < t.len() - 1 implies !(#[trigger] t[k] == ':' && t[k + 1]
        == ':') by {
        if k < p {
            assert(t[k] == pre[k]);
        } else if k == p {
            assert(t[k + 1] == rest[0]);
        } else {
            assert(t[k] == rest[k - p - 1] && t[k + 1] == rest[k - p]);
        }
    }
    assert(t[0] == pre[0]);
}

/// Parsing the canonical text of an IPv4 address gives the address back.
pub proof fn lemma_parse_format_v4(ip: Ipv4Address)
    ensures
        spec_parse_v4(spec_format_v4(ip)) == Some(ip),
{
    let d0 = spec_dec(ip.o0 as int);
    let d1 = spec_dec(ip.o1 as int);
    let d2 = spec_dec(ip.o2 as int);
    let d3 = spec_dec(ip.o3 as int);
    lemma_dec_roundtrip(ip.o0 as int);
    lemma_dec_roundtrip(ip.o1 as int);
    lemma_dec_roundtrip(ip.o2 as int);
    lemma_dec_roundtrip(ip.o3 as int);
    lemma_digits_free(d0);
    lemma_digits_free(d1);
    lemma_digits_free(d2);
    lemma_digits_free(d3);
    let t3 = d3;
    let t2 = d2 + seq!['.'] + t3;
    let t1 = d1 + seq!['.'] + t2;
    let t0 = d0 + seq!['.'] + t1;
    assert(spec_format_v4(ip) =~= t0);
    lemma_split_prefix(d0, t1, '.');
    lemma_split_prefix(d1, t2, '.');
    lemma_split_prefix(d2, t3, '.');
    lemma_split_whole(d3, '.');
    assert(spec_split(t0, '.') =~= seq![d0, d1, d2, d3]);
}

/// The parts joined with a separator between each two.
pub open spec fn spec_join(parts: Seq<Seq<char>>, sep: char) -> Seq<char>
    decreases parts.len(),
{
    if parts.len() == 0 {
        Seq::empty()
    } else if parts.len() == 1 {
        parts[0]
    } else {
        parts[0] + seq![sep] + spec_join(parts.drop_first(), sep)
    }
}

/// Splitting a join of separator-free parts gives the parts back.
proof fn lemma_join_split(parts: Seq<Seq<char>>, sep: char)
    requires
        parts.len() >= 1,
        forall|i: int, k: int|
            0 <= i < parts.len() && 0 <= k < parts[i].len() ==> #[trigger] parts[i][k] != sep,
    ensures
        spec_split(spec_join(parts, sep), sep) == parts,
    decreases parts.len(),
{
    if parts.len() == 1 {
        lemma_split_whole(parts[0], sep);
        assert(spec_split(spec_join(parts, sep), sep) =~= parts);
    } else {
        let rest = parts.drop_first();
        assert(forall|i: int, k: int|
            0 <= i < rest.len() && 0 <= k < rest[i].len() ==> #[trigger] rest[i][k] != sep);
        lemma_join_split(rest, sep);
        lemma_split_prefix(parts[0], spec_join(rest, sep), sep);
        assert(seq![parts[0]] + rest =~= parts);
    }
}

/// A join of nonempty colon-free parts holds no double colon and does not
/// start with a colon.
proof fn lemma_join_no_double_colon(parts: Seq<Seq<char>>)
    requires
        parts.len() >= 1,
        forall|i: int| 0 <= i < parts.len() ==> #[trigger] parts[i].len() >= 1,
        forall|i: int, k: int|
            0 <= i < parts.len() && 0 <= k < parts[i].len() ==> #[trigger] parts[i][k] != ':',
    ensures
        spec_no_double_colon(spec_join(parts, ':')),
        spec_join(parts, ':').len() >= 1,
        spec_join(parts, ':')[0] != ':',
    decreases parts.len(),
{
    if parts.len() == 1 {
    } else {
        let rest = parts.drop_first();
        assert(forall|i: int, k: int|
            0 <= i < rest.len() && 0 <= k < rest[i].len() ==> #[trigger] rest[i][k] != ':');
        lemma_join_no_double_colon(rest);
        lemma_no2_glue(parts[0], spec_join(rest, ':'));
    }
}

/// A join of parts free of some character other than the separator is free
/// of that character.
proof fn lemma_join_free(parts: Seq<Seq<char>>, sep: char, c: char)
    requires
        c != sep,
        forall|i: int, k: int|
            0 <= i < parts.len() && 0 <= k < parts[i].len() ==> #[trigger] parts[i][k] != c,
    ensures
        forall|k: int| 0 <= k < spec_join(parts, sep).len() ==> spec_join(parts, sep)[k] != c,
    decreases parts.len(),
{
    if parts.len() >= 2 {
        let rest = parts.drop_first();
        assert(forall|i: int, k: int|
            0 <= i < rest.len() && 0 <= k < rest[i].len() ==> #[trigger] rest[i][k] != c);
        lemma_join_free(rest, sep, c);
        lemma_concat_free(parts[0], seq![sep], c);
        lemma_concat_free(parts[0] + seq![sep], spec_join(rest, sep), c);
        assert(parts[0] + seq![sep] + spec_join(rest, sep) =~= (parts[0] + seq![sep])
            + spec_join(rest, sep));
    }
}

/// The group texts of an IPv6 address, most significant first.
pub open spec fn spec_v6_group_texts(ip: Ipv6Address) -> Seq<Seq<char>> {
    seq![
        spec_hex(ip.s0 as int),
        spec_hex(ip.s1 as int),
        spec_hex(ip.s2 as int),
        spec_hex(ip.s3 as int),
        spec_hex(ip.s4 as int),
        spec_hex(ip.s5 as int),
        spec_hex(ip.s6 as int),
        spec_hex(ip.s7 as int),
    ]
}

/// The canonical IPv6 text is the join of the group texts.
#[verifier::rlimit(100)]
proof fn lemma_format_v6_is_join(ip: Ipv6Address)
    ensures
        spec_format_v6(ip) == spec_join(spec_v6_group_texts(ip), ':'),
{
    let ts = spec_v6_group_texts(ip);
    let t1 = ts.drop_first();
    let t2 = t1.drop_first();
    let t3 = t2.drop_first();
    let t4 = t3.drop_first();
    let t5 = t4.drop_first();
    let t6 = t5.drop_first();
    let t7 = t6.drop_first();
    assert(t7.len() == 1);
    assert(spec_join(t7, ':') == ts[7]);
    assert(spec_join(t6, ':') == ts[6] + seq![':'] + spec_join(t7, ':'));
    assert(spec_join(t5, ':') == ts[5] + seq![':'] + spec_join(t6, ':'));
    assert(spec_join(t4, ':') == ts[4] + seq![':'] + spec_join(t5, ':'));
    assert(spec_join(t3, ':') == ts[3] + seq![':'] + spec_join(t4, ':'));
    assert(spec_join(t2, ':') == ts[2] + seq![':'] + spec_join(t3, ':'));
    assert(spec_join(t1, ':') == ts[1] + seq![':'] + spec_join(t2, ':'));
    assert(spec_join(ts, ':') == ts[0] + seq![':'] + spec_join(t1, ':'));
    assert(spec_format_v6(ip) =~= spec_join(ts, ':'));
}

/// Every group text of an IPv6 address is a valid nonempty group, free of
/// dots and colons, and the group values decode to the address segments.
#[verifier::rlimit(100)]
proof fn lemma_v6_group_texts_props(ip: Ipv6Address)
    ensures
        forall|i: int|
            0 <= i < 8 ==> spec_valid_group(#[trigger] spec_v6_group_texts(ip)[i]),
        forall|i: int, k: int|
            0 <= i < 8 && 0 <= k < spec_v6_group_texts(ip)[i].len()
                ==> #[trigger] spec_v6_group_texts(ip)[i][k] != ':'
                && spec_v6_group_texts(ip)[i][k] != '.',
        spec_group_vals(spec_v6_group_texts(ip)) == ip.spec_segments(),
{
    lemma_hex_roundtrip(ip.s0 as int);
    lemma_hex_roundtrip(ip.s1 as int);
    lemma_hex_roundtrip(ip.s2 as int);
    lemma_hex_roundtrip(ip.s3 as int);
    lemma_hex_roundtrip(ip.s4 as int);
    lemma_hex_roundtrip(ip.s5 as int);
    lemma_hex_roundtrip(ip.s6 as int);
    lemma_hex_roundtrip(ip.s7 as int);
    lemma_digits_free(spec_hex(ip.s0 as int));
    lemma_digits_free(spec_hex(ip.s1 as int));
    lemma_digits_free(spec_hex(ip.s2 as int));
    lemma_digits_free(spec_hex(ip.s3 as int));
    lemma_digits_free(spec_hex(ip.s4 as int));
    lemma_digits_free(spec_hex(ip.s5 as int));
    lemma_digits_free(spec_hex(ip.s6 as int));
    lemma_digits_free(spec_hex(ip.s7 as int));
    assert(spec_group_vals(spec_v6_group_texts(ip)) =~= ip.spec_segments());
}

/// Parsing the canonical text of an IPv6 address gives the address back,
/// and the text is valid as no IPv4 address.
#[verifier::rlimit(100)]
pub proof fn lemma_parse_format_v6(ip: Ipv6Address)
    ensures
        spec_parse_v6(spec_format_v6(ip)) == Some(ip),
        spec_parse_v4(spec_format_v6(ip)) is None,
{
    let ts = spec_v6_group_texts(ip);
    let t = spec_format_v6(ip);
    lemma_format_v6_is_join(ip);
    lemma_v6_group_texts_props(ip);
    lemma_join_no_double_colon(ts);
    lemma_find2_props(t);
    assert(spec_find2(t) == t.len());
    lemma_join_split(ts, ':');
    assert(spec_split(t, ':') == ts);
    assert(spec_groups_valid(ts));
    assert(spec_ipv6_from_seq(spec_group_vals(ts)) == ip);
    lemma_join_free(ts, ':', '.');
    lemma_split_whole(t, '.');
}

/// Law: parsing the canonical text of an address gives the address back.
pub proof fn lemma_parse_format_ip(ip: IpAddress)
    ensures
        spec_parse_ip(spec_format_ip(ip)) == Some(ip),
{
    match ip {
        IpAddress::V4(v4) => lemma_parse_format_v4(v4),
        IpAddress::V6(v6) => lemma_parse_format_v6(v6),
    }
}


/// The value of a decimal digit character, or nothing for another
/// character.
pub fn digit_val(c: char) -> (r: Option<u32>)
    ensures
        match r {
            Some(v) => spec_is_digit(c) && v == spec_dec_digit_val(c),
            None => !spec_is_digit(c),
        },
{
    let u = c as u32;
    if 48 <= u && u <= 57 {
        Some(u - 48)
    } else {
        None
    }
}

/// The value of a hexadecimal digit character of either case, or nothing
/// for another character.
pub fn hex_digit_val(c: char) -> (r: Option<u32>)
    ensures
        match r {
            Some(v) => spec_is_hex(c) && v == spec_hex_digit_val(c),
            None => !spec_is_hex(c),
        },
{
    let u = c as u32;
    if 48 <= u && u <= 57 {
        Some(u - 48)
    } else if 97 <= u && u <= 102 {
        Some(u - 87)
    } else if 65 <= u && u <= 70 {
        Some(u - 55)
    } else {
        None
    }
}

/// Split a character vector at every occurrence of `sep`.
fn split_chars(s: &Vec<char>, sep: char) -> (r: Vec<Vec<char>>)
    ensures
        r@.map_values(|v: Vec<char>| v@) == spec_split(s@, sep),
{
    let mut parts: Vec<Vec<char>> = Vec::new();
    let mut cur: Vec<char> = Vec::new();
    let mut i: usize = 0;
    proof {
        assert(parts@.map_values(|v: Vec<char>| v@) =~= Seq::<Seq<char>>::empty());
        assert(cur@ + s@.skip(0) =~= s@);
        assert(Seq::<Seq<char>>::empty() + spec_split(s@, sep) =~= spec_split(s@, sep));
    }
    while i < s.len()
        invariant
            0 <= i <= s@.len(),
            forall|k: int| 0 <= k < cur@.len() ==> cur@[k] != sep,
            spec_split(s@, sep) == parts@.map_values(|v: Vec<char>| v@) + spec_split(
                cur@ + s@.skip(i as int),
                sep,
            ),
        decreases s@.len() - i,
    {
        let c = s[i];
        if c == sep {
            proof {
                assert(cur@ + s@.skip(i as int) =~= cur@ + seq![sep] + s@.skip(i as int + 1));
                lemma_split_prefix(cur@, s@.skip(i as int + 1), sep);
            }
            parts.push(cur);
            cur = Vec::new();
            proof {
                assert(parts@.map_values(|v: Vec<char>| v@)
                    =~= parts@.drop_last().map_values(|v: Vec<char>| v@).push(
                    parts@.last()@,
                ));
                assert(cur@ + s@.skip(i as int + 1) =~= s@.skip(i as int + 1));
            }
        } else {
            let ghost old_cur = cur@;
            cur.push(c);
            proof {
                assert(old_cur + s@.skip(i as int) =~= cur@ + s@.skip(i as int + 1));
            }
        }
        i = i + 1;
    }
    proof {
        assert(cur@ + s@.skip(i as int) =~= cur@);
        lemma_split_whole(cur@, sep);
    }
    parts.push(cur);
    proof {
        assert(parts@.map_values(|v: Vec<char>| v@) =~= parts@.drop_last().map_values(
            |v: Vec<char>| v@,
        ).push(parts@.last()@));
    }
    parts
}

/// Parse one dotted-quad octet.
fn parse_octet(p: &Vec<char>) -> (r: Option<u8>)
    ensures
        match r {
            Some(v) => spec_valid_octet(p@) && v as int == spec_dec_val(p@),
            None => !spec_valid_octet(p@),
        },
{
    let n = p.len();
    if n < 1 || n > 3 {
        return None;
    }
    let mut value: u32 = 0;
    let mut i: usize = 0;
    while i < n
        invariant
            p@.len() == n <= 3,
            0 <= i <= n,
            spec_all_digits(p@.subrange(0, i as int)),
            value == spec_dec_val(p@.subrange(0, i as int)),
            0 <= value,
            i == 0 ==> value == 0,
            i == 1 ==> value <= 9,
            i == 2 ==> value <= 99,
            i == 3 ==> value <= 999,
        decreases n - i,
    {
        match digit_val(p[i]) {
            Some(d) => {
                proof {
                    assert(p@.subrange(0, i + 1).drop_last() =~= p@.subrange(0, i as int));
                }
                value = value * 10 + d;
            },
            None => {
                return None;
            },
        }
        i = i + 1;
    }
    proof {
        assert(p@.subrange(0, n as int) =~= p@);
    }
    if n > 1 && p[0] == '0' {
        return None;
    }
    if value > 255 {
        return None;
    }
    Some(value as u8)
}

/// Parse one IPv6 group of hexadecimal digits.
fn parse_group(p: &Vec<char>) -> (r: Option<u16>)
    ensures
        match r {
            Some(v) => spec_valid_group(p@) && v as int == spec_hex_val(p@),
            None => !spec_valid_group(p@),
        },
{
    let n = p.len();
    if n < 1 || n > 4 {
        return None;
    }
    let mut value: u32 = 0;
    let mut i: usize = 0;
    while i < n
        invariant
            p@.len() == n <= 4,
            0 <= i <= n,
            spec_all_hex(p@.subrange(0, i as int)),
            value == spec_hex_val(p@.subrange(0, i as int)),
            0 <= value,
            i == 0 ==> value == 0,
            i == 1 ==> value <= 15,
            i == 2 ==> value <= 255,
            i == 3 ==> value <= 4095,
            i == 4 ==> value <= 65535,
        decreases n - i,
    {
        match hex_digit_val(p[i]) {
            Some(d) => {
                proof {
                    assert(p@.subrange(0, i + 1).drop_last() =~= p@.subrange(0, i as int));
                }
                value = value * 16 + d;
            },
            None => {
                return None;
            },
        }
        i = i + 1;
    }
    proof {
        assert(p@.subrange(0, n as int) =~= p@);
    }
    Some(value as u16)
}

/// The copy of a range of a character vector.
fn subvec(s: &Vec<char>, a: usize, b: usize) -> (r: Vec<char>)
    requires
        a <= b <= s@.len(),
    ensures
        r@ == s@.subrange(a as int, b as int),
{
    let mut r: Vec<char> = Vec::new();
    let mut i: usize = a;
    while i < b
        invariant
            a <= i <= b <= s@.len(),
            r@ == s@.subrange(a as int, i as int),
        decreases b - i,
    {
        r.push(s[i]);
        proof {
            assert(s@.subrange(a as int, i + 1) =~= s@.subrange(a as int, i as int).push(
                s@[i as int],
            ));
        }
        i = i + 1;
    }
    r
}

/// The position of the first double colon, or the length of the text when
/// there is none.
fn find_double_colon(s: &Vec<char>) -> (r: usize)
    ensures
        r == spec_find2(s@),
{
    let n = s.len();
    if n < 2 {
        return n;
    }
    let mut i: usize = 0;
    while i < n - 1
        invariant
            2 <= n == s@.len(),
            0 <= i <= n,
            forall|k: int| 0 <= k < i ==> !(#[trigger] s@[k] == ':' && s@[k + 1] == ':'),
        decreases n - i,
    {
        if s[i] == ':' && s[i + 1] == ':' {
            proof {
                lemma_find2_props(s@);
                let f = spec_find2(s@);
                if f + 2 <= s@.len() {
                    if f < i {
                        assert(!(s@[f as int] == ':' && s@[f as int + 1] == ':'));
                    }
                } else {
                    assert(!(s@[i as int] == ':' && s@[i as int + 1] == ':'));
                }
            }
            return i;
        }
        i = i + 1;
    }
    proof {
        lemma_find2_props(s@);
        assert(spec_no_double_colon(s@));
    }
    n
}

/// Parse the groups of a colon-separated part list, failing where any group
/// is invalid.
fn parse_groups(parts: &Vec<Vec<char>>) -> (r: Option<Vec<u16>>)
    ensures
        match r {
            Some(v) => spec_groups_valid(parts@.map_values(|p: Vec<char>| p@)) && v@
                == spec_group_vals(parts@.map_values(|p: Vec<char>| p@)),
            None => !spec_groups_valid(parts@.map_values(|p: Vec<char>| p@)),
        },
{
    let ghost views = parts@.map_values(|p: Vec<char>| p@);
    let mut vals: Vec<u16> = Vec::new();
    let mut j: usize = 0;
    while j < parts.len()
        invariant
            0 <= j <= parts@.len(),
            views == parts@.map_values(|p: Vec<char>| p@),
            vals@.len() == j,
            forall|k: int| 0 <= k < j ==> spec_valid_group(#[trigger] views[k]),
            forall|k: int| 0 <= k < j ==> vals@[k] as int == spec_hex_val(#[trigger] views[k]),
        decreases parts@.len() - j,
    {
        match parse_group(&parts[j]) {
            Some(v) => {
                vals.push(v);
            },
            None => {
                proof {
                    assert(!spec_valid_group(views[j as int]));
                }
                return None;
            },
        }
        j = j + 1;
    }
    proof {
        assert(vals@ =~= spec_group_vals(views));
    }
    Some(vals)
}

/// Parse a dotted-quad IPv4 address text.
pub fn parse_v4(s: &Vec<char>) -> (r: Option<Ipv4Address>)
    ensures
        r == spec_parse_v4(s@),
{
    let parts = split_chars(s, '.');
    proof {
        assert(parts@.map_values(|v: Vec<char>| v@).len() == parts@.len());
    }
    if parts.len() != 4 {
        return None;
    }
    let o0 = parse_octet(&parts[0]);
    let o1 = parse_octet(&parts[1]);
    let o2 = parse_octet(&parts[2]);
    let o3 = parse_octet(&parts[3]);
    match (o0, o1, o2, o3) {
        (Some(a), Some(b), Some(c), Some(d)) => Some(Ipv4Address { o0: a, o1: b, o2: c, o3: d }),
        _ => None,
    }
}

/// The concatenation of the left groups, a run of zero groups, and the
/// right groups.
fn assemble_segments(lvals: &Vec<u16>, zero_count: usize, rvals: &Vec<u16>) -> (r: Vec<u16>)
    ensures
        r@ == lvals@ + Seq::<u16>::new(zero_count as nat, |i: int| 0u16) + rvals@,
{
    let mut segments: Vec<u16> = Vec::new();
    let mut j: usize = 0;
    while j < lvals.len()
        invariant
            0 <= j <= lvals@.len(),
            segments@ == lvals@.subrange(0, j as int),
        decreases lvals@.len() - j,
    {
        segments.push(lvals[j]);
        proof {
            assert(lvals@.subrange(0, j + 1) =~= lvals@.subrange(0, j as int).push(
                lvals@[j as int],
            ));
        }
        j = j + 1;
    }
    let mut z: usize = 0;
    proof {
        assert(lvals@.subrange(0, lvals@.len() as int) =~= lvals@);
    }
    while z < zero_count
        invariant
            0 <= z <= zero_count,
            segments@ == lvals@ + Seq::<u16>::new(z as nat, |i: int| 0u16),
        decreases zero_count - z,
    {
        segments.push(0);
        proof {
            assert(lvals@ + Seq::<u16>::new(z as nat + 1, |i: int| 0u16) =~= (lvals@
                + Seq::<u16>::new(z as nat, |i: int| 0u16)).push(0u16));
        }
        z = z + 1;
    }
    let mut k: usize = 0;
    let ghost mid = segments@;
    while k < rvals.len()
        invariant
            0 <= k <= rvals@.len(),
            segments@ == mid + rvals@.subrange(0, k as int),
        decreases rvals@.len() - k,
    {
        segments.push(rvals[k]);
        proof {
            assert(mid + rvals@.subrange(0, k + 1) =~= (mid + rvals@.subrange(
                0,
                k as int,
            )).push(rvals@[k as int]));
        }
        k = k + 1;
    }
    proof {
        assert(rvals@ =~= rvals@.subrange(0, rvals@.len() as int));
        assert(segments@ =~= lvals@ + Seq::<u16>::new(zero_count as nat, |i: int| 0u16)
            + rvals@);
    }
    segments
}

/// Whether the text holds a dot.
fn has_dot(p: &Vec<char>) -> (r: bool)
    ensures
        r == spec_has_dot(p@),
{
    let mut i: usize = 0;
    while i < p.len()
        invariant
            0 <= i <= p@.len(),
            forall|t: int| 0 <= t < i ==> p@[t] != '.',
        decreases p@.len() - i,
    {
        if p[i] == '.' {
            return true;
        }
        i = i + 1;
    }
    false
}

/// Parse an IPv6 address text, with or without a double colon, accepting
/// an embedded dotted-quad tail.
#[verifier::rlimit(100)]
pub fn parse_v6(s: &Vec<char>) -> (r: Option<Ipv6Address>)
    ensures
        r == spec_parse_v6(s@),
{
    let n = s.len();
    let f = find_double_colon(s);
    if f < n && n - f >= 2 {
        let left = subvec(s, 0, f);
        let right = subvec(s, f + 2, n);
        proof {
            assert(left@ =~= s@.take(f as int));
            assert(right@ =~= s@.skip(f as int + 2));
        }
        let lparts: Vec<Vec<char>> = if left.len() == 0 {
            Vec::new()
        } else {
            split_chars(&left, ':')
        };
        let mut rparts: Vec<Vec<char>> = if right.len() == 0 {
            Vec::new()
        } else {
            split_chars(&right, ':')
        };
        proof {
            if left@.len() == 0 {
                assert(lparts@.map_values(|p: Vec<char>| p@) =~= Seq::<Seq<char>>::empty());
            }
            if right@.len() == 0 {
                assert(rparts@.map_values(|p: Vec<char>| p@) =~= Seq::<Seq<char>>::empty());
            }
        }
        let lvals = match parse_groups(&lparts) {
            Some(v) => v,
            None => {
                return None;
            },
        };
        let tail_is_v4 = rparts.len() > 0 && has_dot(&rparts[rparts.len() - 1]);
        if tail_is_v4 {
            let ghost rviews = rparts@.map_values(|p: Vec<char>| p@);
            let tail = match rparts.pop() {
                Some(t) => t,
                None => {
                    return None;
                },
            };
            proof {
                assert(rparts@.map_values(|p: Vec<char>| p@) =~= rviews.take(
                    rviews.len() - 1,
                ));
                assert(tail@ == rviews.last());
            }
            let v4 = match parse_v4(&tail) {
                Some(a) => a,
                None => {
                    return None;
                },
            };
            let rvals = match parse_groups(&rparts) {
                Some(v) => v,
                None => {
                    return None;
                },
            };
            if lvals.len() > 5 {
                return None;
            }
            if rvals.len() > 5 - lvals.len() {
                return None;
            }
            let zero_count = 6 - lvals.len() - rvals.len();
            let mut segments = assemble_segments(&lvals, zero_count, &rvals);
            segments.push(v4.o0 as u16 * 256 + v4.o1 as u16);
            segments.push(v4.o2 as u16 * 256 + v4.o3 as u16);
            proof {
                assert(segments@ =~= lvals@ + Seq::<u16>::new(
                    (6 - lvals@.len() - rvals@.len()) as nat,
                    |i: int| 0u16,
                ) + rvals@ + spec_v4_pair(v4));
            }
            Some(Ipv6Address::from_segments(&segments))
        } else {
            let rvals = match parse_groups(&rparts) {
                Some(v) => v,
                None => {
                    return None;
                },
            };
            if lvals.len() > 7 {
                return None;
            }
            if rvals.len() > 7 - lvals.len() {
                return None;
            }
            let zero_count = 8 - lvals.len() - rvals.len();
            let segments = assemble_segments(&lvals, zero_count, &rvals);
            Some(Ipv6Address::from_segments(&segments))
        }
    } else {
        let mut parts = split_chars(s, ':');
        proof {
            assert(parts@.map_values(|v: Vec<char>| v@).len() == parts@.len());
        }
        let tail_is_v4 = parts.len() > 0 && has_dot(&parts[parts.len() - 1]);
        if tail_is_v4 {
            let ghost pviews = parts@.map_values(|p: Vec<char>| p@);
            let tail = match parts.pop() {
                Some(t) => t,
                None => {
                    return None;
                },
            };
            proof {
                assert(parts@.map_values(|p: Vec<char>| p@) =~= pviews.take(
                    pviews.len() - 1,
                ));
                assert(tail@ == pviews.last());
            }
            let v4 = match parse_v4(&tail) {
                Some(a) => a,
                None => {
                    return None;
                },
            };
            if parts.len() != 6 {
                return None;
            }
            let mut vals = match parse_groups(&parts) {
                Some(v) => v,
                None => {
                    return None;
                },
            };
            let ghost hexvals = vals@;
            vals.push(v4.o0 as u16 * 256 + v4.o1 as u16);
            vals.push(v4.o2 as u16 * 256 + v4.o3 as u16);
            proof {
                assert(vals@ =~= hexvals + spec_v4_pair(v4));
            }
            Some(Ipv6Address::from_segments(&vals))
        } else {
            if parts.len() != 8 {
                return None;
            }
            let vals = match parse_groups(&parts) {
                Some(v) => v,
                None => {
                    return None;
                },
            };
            Some(Ipv6Address::from_segments(&vals))
        }
    }
}

/// Parse an address text of either family.
pub fn parse_ip(s: &Vec<char>) -> (r: Option<IpAddress>)
    ensures
        r == spec_parse_ip(s@),
{
    match parse_v4(s) {
        Some(v4) => Some(IpAddress::V4(v4)),
        None => match parse_v6(s) {
            Some(v6) => Some(IpAddress::V6(v6)),
            None => None,
        },
    }
}

} // verus!
