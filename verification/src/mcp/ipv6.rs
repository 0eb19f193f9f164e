//! Network addresses of eight groups.

use vstd::prelude::*;
use vstd::string::*;
use crate::mcp::policy;
use crate::mcp::policy::parse_ipv4;
use crate::text;
use crate::text::{chars_of, position_from, split_on, text_slice};

verus! {

/// The value of one hexadecimal digit.
pub open spec fn hex_value(c: char) -> Option<nat> {
    if '0' <= c <= '9' {
        Some((c as nat - '0' as nat) as nat)
    } else if 'a' <= c <= 'f' {
        Some((c as nat - 'a' as nat + 10) as nat)
    } else if 'A' <= c <= 'F' {
        Some((c as nat - 'A' as nat + 10) as nat)
    } else {
        None
    }
}

/// The number that hexadecimal digits are.
pub open spec fn hex_number(s: Seq<char>) -> Option<nat>
    decreases s.len(),
{
    if s.len() == 0 {
        Some(0)
    } else {
        match (hex_number(s.drop_last()), hex_value(s.last())) {
            (Some(n), Some(d)) => Some(16 * n + d),
            _ => None,
        }
    }
}

/// One group: up to four hexadecimal digits, and at least one.
pub open spec fn group(s: Seq<char>) -> Option<nat> {
    if 1 <= s.len() <= 4 {
        hex_number(s)
    } else {
        None
    }
}

/// The groups that the stretches between colons are. The last stretch may be an address
/// in dotted form, which makes up two groups.
pub open spec fn groups(p: Seq<Seq<char>>, dotted: bool) -> Option<Seq<nat>>
    decreases p.len(),
{
    if p.len() == 0 {
        Some(seq![])
    } else {
        match (groups(p.drop_last(), false), policy::ipv4(p.last()), group(p.last())) {
            (Some(g), Some(a), _) if dotted => Some(g + seq![256 * a.0 + a.1, 256 * a.2 + a.3]),
            (Some(g), _, Some(n)) => Some(g.push(n)),
            _ => None,
        }
    }
}

/// The groups that a text between double colons is.
pub open spec fn side(s: Seq<char>, dotted: bool) -> Option<Seq<nat>> {
    if s.len() == 0 {
        Some(seq![])
    } else {
        groups(text::split(s, ':'), dotted)
    }
}

/// The eight groups of an address. A double colon, once, stands for one or more groups
/// of zero.
pub open spec fn ipv6(s: Seq<char>) -> Option<Seq<nat>> {
    match text::find(s, "::"@) {
        None => match side(s, true) {
            Some(g) if g.len() == 8 => Some(g),
            _ => None,
        },
        Some(i) => match (side(s.take(i), false), side(s.skip(i + 2), true)) {
            (Some(a), Some(b)) if a.len() + b.len() <= 7 => Some(
                a + Seq::new((8 - a.len() - b.len()) as nat, |j: int| 0nat) + b,
            ),
            _ => None,
        },
    }
}

/// The number of each group.
pub open spec fn numbers(v: Seq<u16>) -> Seq<nat> {
    v.map_values(|n: u16| n as nat)
}

fn hex_digit(c: char) -> (out: Option<u16>)
    ensures
        match out {
            Some(d) => hex_value(c) == Some(d as nat) && d < 16,
            None => hex_value(c) is None,
        },
{
    let n: u32 = c as u32;
    if '0' <= c && c <= '9' {
        Some((n - 48) as u16)
    } else if 'a' <= c && c <= 'f' {
        Some((n - 87) as u16)
    } else if 'A' <= c && c <= 'F' {
        Some((n - 55) as u16)
    } else {
        None
    }
}

fn parse_group(s: &str) -> (out: Option<u16>)
    ensures
        match out {
            Some(n) => group(s@) == Some(n as nat),
            None => group(s@) is None,
        },
{
    let x = chars_of(s);
    let len: usize = x.len();
    if len < 1 || len > 4 {
        return None;
    }
    let mut n: u32 = 0;
    let mut bound: u32 = 1;
    let mut i: usize = 0;
    assert(s@.take(0) =~= seq![]);
    while i < len
        invariant
            i <= len <= 4,
            len == x@.len(),
            x@ == s@,
            hex_number(s@.take(i as int)) == Some(n as nat),
            n < bound,
            bound == (if i == 0 {
                1u32
            } else if i == 1 {
                16
            } else if i == 2 {
                256
            } else if i == 3 {
                4096
            } else {
                65536
            }),
        decreases len - i,
    {
        assert(s@.take(i + 1).drop_last() =~= s@.take(i as int));
        match hex_digit(x[i]) {
            Some(d) => {
                n = 16 * n + d as u32;
                bound = 16 * bound;
            },
            None => {
                proof {
                    lemma_bad_digit(s@, i as int);
                }
                return None;
            },
        }
        i = i + 1;
    }
    assert(s@.take(i as int) =~= s@);
    Some(n as u16)
}

proof fn lemma_bad_digit(s: Seq<char>, i: int)
    requires
        0 <= i < s.len(),
        hex_value(s[i]) is None,
    ensures
        hex_number(s) is None,
    decreases s.len(),
{
    if i < s.len() - 1 {
        lemma_bad_digit(s.drop_last(), i);
    }
}

proof fn lemma_bad_group(p: Seq<Seq<char>>, n: int, dotted: bool)
    requires
        0 <= n < p.len(),
        groups(p.take(n), false) is None,
    ensures
        groups(p, dotted) is None,
    decreases p.len(),
{
    if n == p.len() - 1 {
        assert(p.drop_last() =~= p.take(n));
    } else {
        assert(p.drop_last().take(n) =~= p.take(n));
        lemma_bad_group(p.drop_last(), n, false);
    }
}

fn parse_side(s: &str, dotted: bool) -> (out: Option<Vec<u16>>)
    ensures
        match out {
            Some(v) => side(s@, dotted) == Some(numbers(v@)),
            None => side(s@, dotted) is None,
        },
{
    let x = chars_of(s);
    let mut out: Vec<u16> = Vec::new();
    assert(numbers(out@) =~= seq![]);
    if x.len() == 0 {
        return Some(out);
    }
    let parts = split_on(&x, ':');
    let ghost p = text::split(s@, ':');
    let len: usize = parts.len();
    proof {
        text::lemma_pieces_nonempty(s@, text::only(':'));
        assert(text::views(parts@).len() == len);
        assert(p.take(0) =~= seq![]);
    }
    let mut i: usize = 0;
    while i < len - 1
        invariant
            i <= len - 1,
            len >= 1,
            len == parts@.len(),
            p == text::views(parts@),
            p == text::split(s@, ':'),
            s@.len() > 0,
            p.len() == len,
            groups(p.take(i as int), false) == Some(numbers(out@)),
        decreases len - i,
    {
        let ghost was = out@;
        assert(p.take(i + 1).drop_last() =~= p.take(i as int));
        assert(p[i as int] == parts@[i as int]@);
        match parse_group(parts[i].as_str()) {
            Some(n) => {
                out.push(n);
                assert(numbers(out@) =~= numbers(was).push(n as nat));
            },
            None => {
                proof {
                    assert(groups(p.take(i + 1), false) is None);
                    lemma_bad_group(p, i + 1, dotted);
                }
                return None;
            },
        }
        i = i + 1;
    }
    let ghost was = out@;
    assert(p.drop_last() =~= p.take(i as int));
    assert(p.last() == parts@[i as int]@);
    if dotted {
        match parse_ipv4(parts[i].as_str()) {
            Some(a) => {
                let hi: u16 = 256 * (a.0 as u16) + a.1 as u16;
                let lo: u16 = 256 * (a.2 as u16) + a.3 as u16;
                out.push(hi);
                out.push(lo);
                assert(numbers(out@) =~= numbers(was) + seq![hi as nat, lo as nat]);
                return Some(out);
            },
            None => {},
        }
    }
    match parse_group(parts[i].as_str()) {
        Some(n) => {
            out.push(n);
            assert(numbers(out@) =~= numbers(was).push(n as nat));
            Some(out)
        },
        None => None,
    }
}

/// The eight groups of an address.
pub fn parse_ipv6(s: &str) -> (out: Option<Vec<u16>>)
    ensures
        match out {
            Some(v) => v@.len() == 8 && ipv6(s@) == Some(numbers(v@)),
            None => ipv6(s@) is None,
        },
{
    proof {
        reveal_strlit("::");
        text::lemma_find_from(s@, "::"@, 0);
    }
    let x = chars_of(s);
    match position_from(&x, &chars_of("::"), 0) {
        None => match parse_side(s, true) {
            Some(v) => {
                assert(numbers(v@).len() == v@.len());
                if v.len() == 8 {
                    Some(v)
                } else {
                    None
                }
            },
            None => None,
        },
        Some(i) => {
            let head = text_slice(&x, 0, i);
            let tail = text_slice(&x, i + 2, x.len());
            assert(head@ =~= s@.take(i as int));
            assert(tail@ =~= s@.skip(i + 2));
            match (parse_side(head.as_str(), false), parse_side(tail.as_str(), true)) {
                (Some(a), Some(b)) => {
                    let ghost (front, back) = (a@, b@);
                    assert(numbers(front).len() == front.len());
                    assert(numbers(back).len() == back.len());
                    let (n, m): (usize, usize) = (a.len(), b.len());
                    if n > 7 || m > 7 - n {
                        return None;
                    }
                    let mut out = a;
                    let mut tail = b;
                    while out.len() < 8 - m
                        invariant
                            n + m <= 7,
                            n <= out@.len() <= 8 - m,
                            front.len() == n,
                            out@ == front + Seq::new((out@.len() - n) as nat, |j: int| 0u16),
                        decreases 8 - m - out@.len(),
                    {
                        let ghost was = out@;
                        out.push(0);
                        assert(out@ =~= front + Seq::new((out@.len() - n) as nat, |j: int| 0u16));
                    }
                    out.append(&mut tail);
                    assert(numbers(out@) =~= numbers(front) + Seq::new(
                        (8 - n - m) as nat,
                        |j: int| 0nat,
                    ) + numbers(back));
                    Some(out)
                },
                _ => None,
            }
        },
    }
}

/// The address in brackets, as the host of a web address is written, without them.
pub open spec fn unbracketed(host: Seq<char>) -> Seq<char> {
    if host.len() >= 2 && host[0] == '[' && host.last() == ']' {
        host.subrange(1, host.len() - 1)
    } else {
        host
    }
}

/// The eight groups of a host, where it is such an address, in brackets or not.
pub open spec fn host_groups(host: Seq<char>) -> Option<Seq<nat>> {
    ipv6(unbracketed(host))
}

/// The eight groups of a host, where it is such an address, in brackets or not.
pub fn read_host(host: &str) -> (out: Option<Vec<u16>>)
    ensures
        match out {
            Some(v) => v@.len() == 8 && host_groups(host@) == Some(numbers(v@)),
            None => host_groups(host@) is None,
        },
{
    let x = chars_of(host);
    let n: usize = x.len();
    if n >= 2 && x[0] == '[' && x[n - 1] == ']' {
        parse_ipv6(text_slice(&x, 1, n - 1).as_str())
    } else {
        parse_ipv6(host)
    }
}

} // verus!
