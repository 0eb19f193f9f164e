//! How many bytes a text takes.

use vstd::prelude::*;
use vstd::string::*;
use crate::text::{chars_of, text_slice};

verus! {

/// How many bytes a character takes.
pub open spec fn width(c: char) -> nat {
    if c as u32 <= 0x7f {
        1
    } else if c as u32 <= 0x7ff {
        2
    } else if c as u32 <= 0xffff {
        3
    } else {
        4
    }
}

/// How many bytes a text takes.
pub open spec fn size(s: Seq<char>) -> nat
    decreases s.len(),
{
    if s.len() == 0 {
        0
    } else {
        size(s.drop_last()) + width(s.last())
    }
}

/// `n` characters of a text are as many as go into `room` bytes.
pub open spec fn fills(s: Seq<char>, room: nat, n: int) -> bool {
    &&& 0 <= n <= s.len()
    &&& size(s.take(n)) <= room
    &&& n < s.len() ==> size(s.take(n + 1)) > room
}

/// Only one number of characters fills a room.
pub proof fn lemma_fills(s: Seq<char>, room: nat, a: int, b: int)
    requires
        fills(s, room, a),
        fills(s, room, b),
    ensures
        a == b,
{
    if a < b {
        lemma_size_grows(s, a + 1, b);
    } else if b < a {
        lemma_size_grows(s, b + 1, a);
    }
}

proof fn lemma_size_grows(s: Seq<char>, a: int, b: int)
    requires
        0 <= a <= b <= s.len(),
    ensures
        size(s.take(a)) <= size(s.take(b)),
    decreases b - a,
{
    if a < b {
        lemma_size_grows(s, a, b - 1);
        assert(s.take(b).drop_last() =~= s.take(b - 1));
    }
}

/// As many characters of a text as go into `room` bytes.
pub open spec fn shortened(s: Seq<char>, room: nat) -> Seq<char> {
    s.take(choose|n: int| fills(s, room, n))
}

fn char_width(c: char) -> (n: usize)
    ensures
        n == width(c),
{
    let v: u32 = c as u32;
    if v <= 0x7f {
        1
    } else if v <= 0x7ff {
        2
    } else if v <= 0xffff {
        3
    } else {
        4
    }
}

/// As many characters of a text as go into `room` bytes.
pub fn shorten(s: &str, room: usize) -> (out: String)
    requires
        room < 1000,
    ensures
        out@ == shortened(s@, room as nat),
        size(out@) <= room,
{
    let x = chars_of(s);
    let n: usize = x.len();
    let mut i: usize = 0;
    let mut used: usize = 0;
    while i < n
        invariant_except_break
            size(x@.take(i as int)) == used,
        invariant
            i <= n,
            n == x@.len(),
            x@ == s@,
            used <= room < 1000,
        ensures
            fills(s@, room as nat, i as int),
        decreases n - i,
    {
        assert(x@.take(i + 1).drop_last() =~= x@.take(i as int));
        let w = char_width(x[i]);
        if used + w > room {
            break;
        }
        used = used + w;
        i = i + 1;
    }
    proof {
        let k = choose|n: int| fills(s@, room as nat, n);
        lemma_fills(s@, room as nat, i as int, k);
    }
    let out = text_slice(&x, 0, i);
    assert(out@ =~= s@.take(i as int));
    out
}

/// Some number of characters fills a room.
pub proof fn lemma_fits(s: Seq<char>, room: nat, n: int) -> (k: int)
    requires
        0 <= n <= s.len(),
        size(s.take(n)) <= room,
    ensures
        fills(s, room, k),
    decreases s.len() - n,
{
    if n < s.len() && size(s.take(n + 1)) <= room {
        lemma_fits(s, room, n + 1)
    } else {
        n
    }
}

/// The bytes of two texts add up.
pub proof fn lemma_size_plus(a: Seq<char>, b: Seq<char>)
    ensures
        size(a + b) == size(a) + size(b),
    decreases b.len(),
{
    if b.len() == 0 {
        assert(a + b =~= a);
    } else {
        assert((a + b).drop_last() =~= a + b.drop_last());
        lemma_size_plus(a, b.drop_last());
    }
}

/// A plain character takes one byte.
pub proof fn lemma_size_ascii(s: Seq<char>)
    requires
        forall|i: int| 0 <= i < s.len() ==> (#[trigger] s[i]) as u32 <= 0x7f,
    ensures
        size(s) == s.len(),
    decreases s.len(),
{
    if s.len() > 0 {
        assert forall|i: int| 0 <= i < s.drop_last().len() implies (
        #[trigger] s.drop_last()[i]) as u32 <= 0x7f by {
            assert(s.drop_last()[i] == s[i]);
        }
        lemma_size_ascii(s.drop_last());
        assert(s[s.len() - 1] as u32 <= 0x7f);
    }
}

} // verus!
