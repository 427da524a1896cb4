//! Item heads: a major type and an unsigned argument of one to nine bytes.

use vstd::prelude::*;

verus! {

/// Big-endian value of the two bytes at `p`.
pub open spec fn be2(s: Seq<u8>, p: int) -> nat {
    (s[p] as nat) * 0x100 + (s[p + 1] as nat)
}

/// Big-endian value of the four bytes at `p`.
pub open spec fn be4(s: Seq<u8>, p: int) -> nat {
    be2(s, p) * 0x1_0000 + be2(s, p + 2)
}

/// Big-endian value of the eight bytes at `p`.
pub open spec fn be8(s: Seq<u8>, p: int) -> nat {
    be4(s, p) * 0x1_0000_0000 + be4(s, p + 4)
}

/// Two big-endian bytes of a value below 2^16.
pub open spec fn bytes2(n: nat) -> Seq<u8> {
    seq![(n / 0x100) as u8, (n % 0x100) as u8]
}

/// Four big-endian bytes of a value below 2^32.
pub open spec fn bytes4(n: nat) -> Seq<u8> {
    bytes2(n / 0x1_0000) + bytes2(n % 0x1_0000)
}

/// Eight big-endian bytes of a value below 2^64.
pub open spec fn bytes8(n: nat) -> Seq<u8> {
    bytes4(n / 0x1_0000_0000) + bytes4(n % 0x1_0000_0000)
}

/// What the first bytes of an item say: its major type (0 to 7), the five
/// low bits of the first byte, the argument, and where the head ends.
pub struct Head {
    pub major: u8,
    pub info: u8,
    pub arg: u64,
    pub end: int,
}

/// Number of argument bytes that follow the first byte.
pub open spec fn arg_width(info: u8) -> int {
    if info == 24 {
        1
    } else if info == 25 {
        2
    } else if info == 26 {
        4
    } else if info == 27 {
        8
    } else {
        0
    }
}

/// The argument that follows the first byte at `pos`, for `info` in 24..=27.
pub open spec fn arg_at(s: Seq<u8>, pos: int, info: u8) -> nat {
    if info == 24 {
        s[pos + 1] as nat
    } else if info == 25 {
        be2(s, pos + 1)
    } else if info == 26 {
        be4(s, pos + 1)
    } else {
        be8(s, pos + 1)
    }
}

/// The head that starts at `pos`, if the bytes hold one. Info 31 marks an
/// indefinite length (or the break byte) and carries argument 0; info 28 to
/// 30 is reserved and refused. An argument need not be in its shortest form.
pub open spec fn head_at(s: Seq<u8>, pos: int) -> Option<Head> {
    if 0 <= pos < s.len() {
        let major = s[pos] / 32;
        let info = s[pos] % 32;
        if info < 24 {
            Some(Head { major, info, arg: info as u64, end: pos + 1 })
        } else if info == 31 {
            Some(Head { major, info, arg: 0, end: pos + 1 })
        } else if info >= 28 {
            None
        } else if pos + 1 + arg_width(info) <= s.len() {
            Some(
                Head {
                    major,
                    info,
                    arg: arg_at(s, pos, info) as u64,
                    end: pos + 1 + arg_width(info),
                },
            )
        } else {
            None
        }
    } else {
        None
    }
}

/// The shortest head for a major type and an argument.
#[verifier::opaque]
pub open spec fn head_bytes(major: u8, arg: u64) -> Seq<u8> {
    if arg < 24 {
        seq![(major * 32 + arg) as u8]
    } else if arg < 0x100 {
        seq![(major * 32 + 24) as u8, arg as u8]
    } else if arg < 0x1_0000 {
        seq![(major * 32 + 25) as u8] + bytes2(arg as nat)
    } else if arg < 0x1_0000_0000 {
        seq![(major * 32 + 26) as u8] + bytes4(arg as nat)
    } else {
        seq![(major * 32 + 27) as u8] + bytes8(arg as nat)
    }
}

/// The info bits of the shortest head for an argument.
pub open spec fn short_info(arg: u64) -> u8 {
    if arg < 24 {
        arg as u8
    } else if arg < 0x100 {
        24
    } else if arg < 0x1_0000 {
        25
    } else if arg < 0x1_0000_0000 {
        26
    } else {
        27
    }
}

/// Two bytes written from a value read back as the value.
pub proof fn lemma_be2(n: nat)
    requires
        n < 0x1_0000,
    ensures
        be2(bytes2(n), 0) == n,
        bytes2(n).len() == 2,
{
}

/// Four bytes written from a value read back as the value.
pub proof fn lemma_be4(n: nat)
    requires
        n < 0x1_0000_0000,
    ensures
        be4(bytes4(n), 0) == n,
        bytes4(n).len() == 4,
{
    let hi = n / 0x1_0000;
    let lo = n % 0x1_0000;
    lemma_be2(hi);
    lemma_be2(lo);
    let s = bytes4(n);
    assert(s[0] == bytes2(hi)[0] && s[1] == bytes2(hi)[1]);
    assert(s[2] == bytes2(lo)[0] && s[3] == bytes2(lo)[1]);
}

/// Eight bytes written from a value read back as the value.
pub proof fn lemma_be8(n: nat)
    requires
        n < 0x1_0000_0000_0000_0000,
    ensures
        be8(bytes8(n), 0) == n,
        bytes8(n).len() == 8,
{
    let hi = n / 0x1_0000_0000;
    let lo = n % 0x1_0000_0000;
    lemma_be4(hi);
    lemma_be4(lo);
    let s = bytes8(n);
    let h = bytes4(hi);
    let l = bytes4(lo);
    assert(s[0] == h[0] && s[1] == h[1] && s[2] == h[2] && s[3] == h[3]);
    assert(s[4] == l[0] && s[5] == l[1] && s[6] == l[2] && s[7] == l[3]);
}

/// Big-endian values depend only on the bytes they cover.
pub proof fn lemma_be_moved(s: Seq<u8>, p: int, t: Seq<u8>, q: int, w: int)
    requires
        0 <= w <= 8,
        0 <= p,
        p + w <= s.len(),
        0 <= q,
        q + w <= t.len(),
        s.subrange(p, p + w) == t.subrange(q, q + w),
    ensures
        w >= 2 ==> be2(s, p) == be2(t, q),
        w >= 4 ==> be4(s, p) == be4(t, q),
        w >= 8 ==> be8(s, p) == be8(t, q),
        w >= 1 ==> s[p] == t[q],
{
    let a = s.subrange(p, p + w);
    let b = t.subrange(q, q + w);
    if w >= 1 {
        assert(a[0] == s[p] && b[0] == t[q]);
    }
    if w >= 2 {
        assert(a[1] == s[p + 1] && b[1] == t[q + 1]);
    }
    if w >= 4 {
        assert(a[2] == s[p + 2] && b[2] == t[q + 2]);
        assert(a[3] == s[p + 3] && b[3] == t[q + 3]);
    }
    if w >= 8 {
        assert(a[4] == s[p + 4] && b[4] == t[q + 4]);
        assert(a[5] == s[p + 5] && b[5] == t[q + 5]);
        assert(a[6] == s[p + 6] && b[6] == t[q + 6]);
        assert(a[7] == s[p + 7] && b[7] == t[q + 7]);
    }
}

/// Equal stretches of two byte strings have equal parts.
pub proof fn lemma_part_moved(s: Seq<u8>, p: int, t: Seq<u8>, q: int, n: int, a: int, b: int)
    requires
        0 <= p,
        p + n <= s.len(),
        0 <= q,
        q + n <= t.len(),
        s.subrange(p, p + n) == t.subrange(q, q + n),
        0 <= a <= b <= n,
    ensures
        s.subrange(p + a, p + b) == t.subrange(q + a, q + b),
{
    let x = s.subrange(p, p + n);
    let y = t.subrange(q, q + n);
    assert(s.subrange(p + a, p + b) =~= x.subrange(a, b));
    assert(t.subrange(q + a, q + b) =~= y.subrange(a, b));
}

/// Reading back the shortest head gives the major type and the argument.
pub proof fn lemma_head_of_bytes(major: u8, arg: u64, s: Seq<u8>, pos: int)
    requires
        major < 8,
        0 <= pos,
        pos + head_bytes(major, arg).len() <= s.len(),
        s.subrange(pos, pos + head_bytes(major, arg).len()) == head_bytes(major, arg),
    ensures
        head_at(s, pos) == Some(
            Head {
                major,
                info: short_info(arg),
                arg,
                end: pos + head_bytes(major, arg).len(),
            },
        ),
        head_bytes(major, arg).len() == 1 + arg_width(short_info(arg)),
{
    reveal(head_bytes);
    let h = head_bytes(major, arg);
    let n = h.len() as int;
    assert(h.subrange(0, n) =~= h);
    lemma_part_moved(s, pos, h, 0, n, 0, 1);
    lemma_be_moved(s, pos, h, 0, 1);
    if arg < 24 {
    } else if arg < 0x100 {
        lemma_part_moved(s, pos, h, 0, n, 1, 2);
        lemma_be_moved(s, pos + 1, h, 1, 1);
    } else if arg < 0x1_0000 {
        lemma_be2(arg as nat);
        let b = bytes2(arg as nat);
        lemma_part_moved(s, pos, h, 0, n, 1, 3);
        assert(h.subrange(1, 3) =~= b.subrange(0, 2));
        lemma_be_moved(s, pos + 1, b, 0, 2);
    } else if arg < 0x1_0000_0000 {
        lemma_be4(arg as nat);
        let b = bytes4(arg as nat);
        lemma_part_moved(s, pos, h, 0, n, 1, 5);
        assert(h.subrange(1, 5) =~= b.subrange(0, 4));
        lemma_be_moved(s, pos + 1, b, 0, 4);
    } else {
        lemma_be8(arg as nat);
        let b = bytes8(arg as nat);
        lemma_part_moved(s, pos, h, 0, n, 1, 9);
        assert(h.subrange(1, 9) =~= b.subrange(0, 8));
        lemma_be_moved(s, pos + 1, b, 0, 8);
    }
}

/// A head depends only on the bytes it covers.
pub proof fn lemma_head_moved(s: Seq<u8>, pos: int, t: Seq<u8>, q: int)
    requires
        head_at(s, pos) is Some,
        0 <= q,
        q + (head_at(s, pos)->0.end - pos) <= t.len(),
        s.subrange(pos, head_at(s, pos)->0.end) == t.subrange(
            q,
            q + (head_at(s, pos)->0.end - pos),
        ),
    ensures
        head_at(t, q) == Some(
            Head { end: q + (head_at(s, pos)->0.end - pos), ..head_at(s, pos)->0 },
        ),
{
    let h = head_at(s, pos)->0;
    let n = h.end - pos;
    lemma_part_moved(s, pos, t, q, n, 0, 1);
    lemma_be_moved(s, pos, t, q, 1);
    if 24 <= h.info <= 27 {
        let w = arg_width(h.info);
        lemma_part_moved(s, pos, t, q, n, 1, 1 + w);
        lemma_be_moved(s, pos + 1, t, q + 1, w);
    }
}

/// A head as the reader holds it.
pub struct HeadAt {
    pub major: u8,
    pub info: u8,
    pub arg: u64,
    pub end: usize,
}

impl View for HeadAt {
    type V = Head;

    open spec fn view(&self) -> Head {
        Head { major: self.major, info: self.info, arg: self.arg, end: self.end as int }
    }
}

fn read_be2(bytes: &[u8], p: usize) -> (r: u64)
    requires
        p + 2 <= bytes.len(),
    ensures
        r == be2(bytes@, p as int),
        r < 0x1_0000,
{
    (bytes[p] as u64) * 0x100 + (bytes[p + 1] as u64)
}

fn read_be4(bytes: &[u8], p: usize) -> (r: u64)
    requires
        p + 4 <= bytes.len(),
    ensures
        r == be4(bytes@, p as int),
        r < 0x1_0000_0000,
{
    read_be2(bytes, p) * 0x1_0000 + read_be2(bytes, p + 2)
}

fn read_be8(bytes: &[u8], p: usize) -> (r: u64)
    requires
        p + 8 <= bytes.len(),
    ensures
        r == be8(bytes@, p as int),
{
    read_be4(bytes, p) * 0x1_0000_0000 + read_be4(bytes, p + 4)
}

/// Reads the head that starts at `pos`.
pub fn read_head(bytes: &[u8], pos: usize) -> (r: Option<HeadAt>)
    ensures
        match r {
            Some(h) => head_at(bytes@, pos as int) == Some(h@) && pos < h.end <= bytes.len()
                && h.major < 8 && h.info < 32,
            None => head_at(bytes@, pos as int) is None,
        },
{
    if pos >= bytes.len() {
        return None;
    }
    let b = bytes[pos];
    let major = b / 32;
    let info = b % 32;
    let left = bytes.len() - pos - 1;
    if info < 24 {
        Some(HeadAt { major, info, arg: info as u64, end: pos + 1 })
    } else if info == 31 {
        Some(HeadAt { major, info, arg: 0, end: pos + 1 })
    } else if info >= 28 {
        None
    } else if info == 24 {
        if left < 1 {
            return None;
        }
        Some(HeadAt { major, info, arg: bytes[pos + 1] as u64, end: pos + 2 })
    } else if info == 25 {
        if left < 2 {
            return None;
        }
        Some(HeadAt { major, info, arg: read_be2(bytes, pos + 1), end: pos + 3 })
    } else if info == 26 {
        if left < 4 {
            return None;
        }
        Some(HeadAt { major, info, arg: read_be4(bytes, pos + 1), end: pos + 5 })
    } else {
        if left < 8 {
            return None;
        }
        Some(HeadAt { major, info, arg: read_be8(bytes, pos + 1), end: pos + 9 })
    }
}

fn push_be2(out: &mut Vec<u8>, n: u64)
    requires
        n < 0x1_0000,
    ensures
        final(out)@ == old(out)@ + bytes2(n as nat),
{
    out.push((n / 0x100) as u8);
    out.push((n % 0x100) as u8);
    assert(out@ =~= old(out)@ + bytes2(n as nat));
}

fn push_be4(out: &mut Vec<u8>, n: u64)
    requires
        n < 0x1_0000_0000,
    ensures
        final(out)@ == old(out)@ + bytes4(n as nat),
{
    push_be2(out, n / 0x1_0000);
    push_be2(out, n % 0x1_0000);
    assert(out@ =~= old(out)@ + bytes4(n as nat));
}

fn push_be8(out: &mut Vec<u8>, n: u64)
    ensures
        final(out)@ == old(out)@ + bytes8(n as nat),
{
    push_be4(out, n / 0x1_0000_0000);
    push_be4(out, n % 0x1_0000_0000);
    assert(out@ =~= old(out)@ + bytes8(n as nat));
}

/// Appends the shortest head for a major type and an argument.
pub(crate) fn push_head(out: &mut Vec<u8>, major: u8, arg: u64)
    requires
        major < 8,
    ensures
        final(out)@ == old(out)@ + head_bytes(major, arg),
{
    reveal(head_bytes);
    if arg < 24 {
        out.push(major * 32 + (arg as u8));
    } else if arg < 0x100 {
        out.push(major * 32 + 24);
        out.push(arg as u8);
    } else if arg < 0x1_0000 {
        out.push(major * 32 + 25);
        push_be2(out, arg);
    } else if arg < 0x1_0000_0000 {
        out.push(major * 32 + 26);
        push_be4(out, arg);
    } else {
        out.push(major * 32 + 27);
        push_be8(out, arg);
    }
    assert(out@ =~= old(out)@ + head_bytes(major, arg));
}

} // verus!
