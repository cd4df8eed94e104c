//! IP addresses: four octets for IPv4, sixteen for IPv6, in network order.

use bytes::{Bytes, BytesMut};
use vstd::prelude::*;

use crate::codec::buffer::{is_tail, 
    append, committed, remaining, split_to, unread, unread_bytes, written,
};
use crate::error::{DecodeError, DecodeErrorView, EncodeError, EncodeErrorView};
use crate::text::chars_of;

verus! {

/// An IPv4 address, as its four octets in network order.
#[derive(Debug, Clone, Copy, PartialEq, Eq, Hash)]
pub struct Ipv4Addr {
    pub octets: [u8; 4],
}

/// An IPv6 address, as its sixteen octets in network order.
#[derive(Debug, Clone, Copy, PartialEq, Eq, Hash)]
pub struct Ipv6Addr {
    pub octets: [u8; 16],
}

/// The two octets of a 16-bit group, high one first.
pub open spec fn group_octets(g: u16) -> Seq<u8> {
    seq![(g / 0x100) as u8, (g % 0x100) as u8]
}

impl Ipv4Addr {
    /// The address `a.b.c.d`.
    pub fn new(a: u8, b: u8, c: u8, d: u8) -> (addr: Ipv4Addr)
        ensures
            addr.octets@ == seq![a, b, c, d],
    {
        let addr = Ipv4Addr { octets: [a, b, c, d] };
        assert(addr.octets@ =~= seq![a, b, c, d]);
        addr
    }

    /// The four octets of the address.
    pub fn octets(&self) -> (octets: [u8; 4])
        ensures
            octets == self.octets,
    {
        self.octets
    }
}

/// The character of a decimal digit.
pub open spec fn digit_char(d: int) -> char {
    if d == 0 {
        '0'
    } else if d == 1 {
        '1'
    } else if d == 2 {
        '2'
    } else if d == 3 {
        '3'
    } else if d == 4 {
        '4'
    } else if d == 5 {
        '5'
    } else if d == 6 {
        '6'
    } else if d == 7 {
        '7'
    } else if d == 8 {
        '8'
    } else {
        '9'
    }
}

/// The decimal text of an octet, without zeros in front.
pub open spec fn octet_text(n: int) -> Seq<char> {
    if n < 10 {
        seq![digit_char(n)]
    } else if n < 100 {
        seq![digit_char(n / 10), digit_char(n % 10)]
    } else {
        seq![digit_char(n / 100), digit_char((n / 10) % 10), digit_char(n % 10)]
    }
}

/// The dotted-decimal text of four octets.
pub open spec fn ipv4_text(octets: Seq<u8>) -> Seq<char> {
    octet_text(octets[0] as int) + seq!['.'] + octet_text(octets[1] as int) + seq!['.']
        + octet_text(octets[2] as int) + seq!['.'] + octet_text(octets[3] as int)
}

/// The text of one decimal digit.
fn digit_text(d: u8) -> (text: &'static str)
    requires
        d < 10,
    ensures
        text@ == seq![digit_char(d as int)],
{
    proof {
        reveal_strlit("0");
        reveal_strlit("1");
        reveal_strlit("2");
        reveal_strlit("3");
        reveal_strlit("4");
        reveal_strlit("5");
        reveal_strlit("6");
        reveal_strlit("7");
        reveal_strlit("8");
        reveal_strlit("9");
    }
    let text = if d == 0 {
        "0"
    } else if d == 1 {
        "1"
    } else if d == 2 {
        "2"
    } else if d == 3 {
        "3"
    } else if d == 4 {
        "4"
    } else if d == 5 {
        "5"
    } else if d == 6 {
        "6"
    } else if d == 7 {
        "7"
    } else if d == 8 {
        "8"
    } else {
        "9"
    };
    assert(text@ =~= seq![digit_char(d as int)]);
    text
}

/// Appends the decimal text of an octet to a text.
fn push_octet(text: &mut String, n: u8)
    ensures
        final(text)@ == old(text)@ + octet_text(n as int),
{
    if n >= 100 {
        text.append(digit_text(n / 100));
    }
    if n >= 10 {
        text.append(digit_text((n / 10) % 10));
    }
    text.append(digit_text(n % 10));
    assert(text@ =~= old(text)@ + octet_text(n as int));
}

impl Ipv4Addr {
    /// The dotted-decimal text of the address.
    pub fn to_string(&self) -> (text: String)
        ensures
            text@ == ipv4_text(self.octets@),
    {
        proof {
            reveal_strlit(".");
        }
        let mut text = String::new();
        push_octet(&mut text, self.octets[0]);
        text.append(".");
        push_octet(&mut text, self.octets[1]);
        text.append(".");
        push_octet(&mut text, self.octets[2]);
        text.append(".");
        push_octet(&mut text, self.octets[3]);
        assert(text@ =~= ipv4_text(self.octets@));
        text
    }
}

impl Ipv6Addr {
    /// The address of the eight 16-bit groups `a:b:c:d:e:f:g:h`.
    pub fn new(a: u16, b: u16, c: u16, d: u16, e: u16, f: u16, g: u16, h: u16) -> (addr: Ipv6Addr)
        ensures
            addr.octets@ == group_octets(a) + group_octets(b) + group_octets(c) + group_octets(d)
                + group_octets(e) + group_octets(f) + group_octets(g) + group_octets(h),
    {
        let addr = Ipv6Addr {
            octets: [
                (a / 0x100) as u8,
                (a % 0x100) as u8,
                (b / 0x100) as u8,
                (b % 0x100) as u8,
                (c / 0x100) as u8,
                (c % 0x100) as u8,
                (d / 0x100) as u8,
                (d % 0x100) as u8,
                (e / 0x100) as u8,
                (e % 0x100) as u8,
                (f / 0x100) as u8,
                (f % 0x100) as u8,
                (g / 0x100) as u8,
                (g % 0x100) as u8,
                (h / 0x100) as u8,
                (h % 0x100) as u8,
            ],
        };
        assert(addr.octets@ =~= group_octets(a) + group_octets(b) + group_octets(c) + group_octets(
            d,
        ) + group_octets(e) + group_octets(f) + group_octets(g) + group_octets(h));
        addr
    }

    /// The sixteen octets of the address.
    pub fn octets(&self) -> (octets: [u8; 16])
        ensures
            octets == self.octets,
    {
        self.octets
    }
}

/// The place of the first `stop` in `s` at or after `from`, or the length of
/// `s` where there is none.
pub open spec fn next_stop(s: Seq<char>, from: int, stop: char) -> int
    decreases s.len() - from,
{
    if from >= s.len() || s[from] == stop {
        from
    } else {
        next_stop(s, from + 1, stop)
    }
}

/// The value of a digit in base sixteen or below, or sixteen for any other character.
pub open spec fn digit_value(c: char) -> int {
    let code = c as u32 as int;
    if 48 <= code <= 57 {
        code - 48
    } else if 97 <= code <= 102 {
        code - 87
    } else if 65 <= code <= 70 {
        code - 55
    } else {
        16
    }
}

/// The number that a text of digits writes in the given base.
pub open spec fn numeral_value(t: Seq<char>, base: int) -> int
    decreases t.len(),
{
    if t.len() == 0 {
        0
    } else {
        numeral_value(t.drop_last(), base) * base + digit_value(t.last())
    }
}

/// A text that writes an octet: one to three decimal digits, no zero in
/// front of another digit, at most 255.
pub open spec fn is_octet_text(t: Seq<char>) -> bool {
    &&& 1 <= t.len() <= 3
    &&& forall|i: int| 0 <= i < t.len() ==> digit_value(#[trigger] t[i]) < 10
    &&& (t.len() > 1 ==> t[0] != '0')
    &&& numeral_value(t, 10) <= 255
}

/// A text that writes a 16-bit group: one to four hexadecimal digits.
pub open spec fn is_group_text(t: Seq<char>) -> bool {
    &&& 1 <= t.len() <= 4
    &&& forall|i: int| 0 <= i < t.len() ==> digit_value(#[trigger] t[i]) < 16
}

/// The octets written in `s` from place `from` on: `count` octet texts with
/// a dot between each two, and nothing after the last.
pub open spec fn octets_from(s: Seq<char>, from: int, count: nat) -> Option<Seq<u8>>
    decreases count,
{
    let end = next_stop(s, from, '.');
    let part = s.subrange(from, end);
    if count == 0 || !is_octet_text(part) {
        None
    } else if count == 1 {
        if end == s.len() {
            Some(seq![numeral_value(part, 10) as u8])
        } else {
            None
        }
    } else if end == s.len() {
        None
    } else {
        match octets_from(s, end + 1, (count - 1) as nat) {
            Some(rest) => Some(seq![numeral_value(part, 10) as u8] + rest),
            None => None,
        }
    }
}

/// The four octets that a dotted-decimal text writes, if it writes an IPv4 address.
pub open spec fn ipv4_from_text(s: Seq<char>) -> Option<Seq<u8>> {
    octets_from(s, 0, 4)
}

/// The pieces of `s` from place `from` on, cut at every colon.
pub open spec fn pieces_from(s: Seq<char>, from: int) -> Seq<Seq<char>>
    decreases s.len() - from,
    via pieces_from_decreases
{
    let end = next_stop(s, from, ':');
    if from < 0 || from > s.len() {
        Seq::empty()
    } else if end >= s.len() {
        seq![s.subrange(from, s.len() as int)]
    } else {
        seq![s.subrange(from, end)] + pieces_from(s, end + 1)
    }
}

#[via_fn]
proof fn pieces_from_decreases(s: Seq<char>, from: int) {
    if 0 <= from <= s.len() {
        lemma_next_stop(s, from, ':');
    }
}

/// The next stop is at or after the place searched from, within the text,
/// and no place between the two holds the stop.
pub proof fn lemma_next_stop(s: Seq<char>, from: int, stop: char)
    requires
        0 <= from <= s.len(),
    ensures
        from <= next_stop(s, from, stop) <= s.len(),
        next_stop(s, from, stop) < s.len() ==> s[next_stop(s, from, stop)] == stop,
        forall|i: int| from <= i < next_stop(s, from, stop) ==> s[i] != stop,
    decreases s.len() - from,
{
    if from < s.len() && s[from] != stop {
        lemma_next_stop(s, from + 1, stop);
    }
}

/// The octets that a run of colon-separated pieces writes: two for each
/// 16-bit group, and, where `dotted` allows it, four for a dotted-decimal
/// address, which only the last piece may be. `None` where a piece is
/// neither.
pub open spec fn pieces_octets(pieces: Seq<Seq<char>>, dotted: bool) -> Option<Seq<u8>>
    decreases pieces.len(),
{
    if pieces.len() == 0 {
        Some(Seq::empty())
    } else if is_group_text(pieces[0]) {
        match pieces_octets(pieces.skip(1), dotted) {
            Some(rest) => Some(group_octets(numeral_value(pieces[0], 16) as u16) + rest),
            None => None,
        }
    } else if pieces.len() == 1 && dotted {
        ipv4_from_text(pieces[0])
    } else {
        None
    }
}

/// The place of the first empty piece at or after `from`, or the number of
/// pieces where none is empty.
pub open spec fn first_empty(pieces: Seq<Seq<char>>, from: int) -> int
    decreases pieces.len() - from,
{
    if from >= pieces.len() || pieces[from].len() == 0 {
        from
    } else {
        first_empty(pieces, from + 1)
    }
}

/// `count` octets of zero.
pub open spec fn zero_octets(count: int) -> Seq<u8> {
    Seq::new(count as nat, |i: int| 0u8)
}

/// The pieces after a double colon whose first empty piece is at `gap`.
/// At the start of the text the double colon shows as two empty pieces; at
/// the end of the text the last piece is empty and nothing follows.
pub open spec fn pieces_after_gap(pieces: Seq<Seq<char>>, gap: int) -> Seq<Seq<char>> {
    let rest = pieces.skip(
        if gap == 0 {
            2
        } else {
            gap + 1
        },
    );
    if rest.len() == 1 && rest[0].len() == 0 {
        Seq::empty()
    } else {
        rest
    }
}

/// The sixteen octets that a text writes, if it writes an IPv6 address.
///
/// The text is cut at its colons. Without a double colon it must be eight
/// groups of one to four hexadecimal digits, the last two of which may be
/// written as one dotted-decimal address. A double colon, which shows as an
/// empty piece, may stand once for one or more groups of zero. Before it
/// only groups may stand. At the start of the text it shows as two empty
/// pieces with a third piece after them, at the end as two empty pieces
/// after the groups.
pub open spec fn ipv6_from_text(s: Seq<char>) -> Option<Seq<u8>> {
    let pieces = pieces_from(s, 0);
    let n = pieces.len() as int;
    let gap = first_empty(pieces, 0);
    if gap >= n {
        match pieces_octets(pieces, true) {
            Some(octets) => if octets.len() == 16 {
                Some(octets)
            } else {
                None
            },
            None => None,
        }
    } else if gap == n - 1 || (gap == 0 && (n < 3 || pieces[1].len() != 0)) {
        None
    } else {
        match (
            pieces_octets(pieces.take(gap), false),
            pieces_octets(pieces_after_gap(pieces, gap), true),
        ) {
            (Some(front), Some(back)) => if front.len() + back.len() <= 14 {
                Some(front + zero_octets(16 - front.len() - back.len()) + back)
            } else {
                None
            },
            _ => None,
        }
    }
}

/// Detail of the error for a text that is no IPv4 address.
pub open spec fn invalid_ipv4(text: Seq<char>) -> Seq<char> {
    "Invalid IPv4 address: "@ + text
}

/// Detail of the error for a text that is no IPv6 address.
pub open spec fn invalid_ipv6(text: Seq<char>) -> Seq<char> {
    "Invalid IPv6 address: "@ + text
}

/// Where no place from `from` up to `pos` holds the stop, and `pos` is the
/// end of the text or holds it, the next stop is `pos`.
pub proof fn lemma_next_stop_at(s: Seq<char>, from: int, pos: int, stop: char)
    requires
        0 <= from <= pos <= s.len(),
        forall|i: int| from <= i < pos ==> s[i] != stop,
        pos == s.len() || s[pos] == stop,
    ensures
        next_stop(s, from, stop) == pos,
    decreases pos - from,
{
    if from < pos {
        lemma_next_stop_at(s, from + 1, pos, stop);
    }
}

/// The text of an octet is an octet text that writes the octet, and has no dot in it.
proof fn lemma_octet_text(n: int)
    requires
        0 <= n <= 255,
    ensures
        is_octet_text(octet_text(n)),
        numeral_value(octet_text(n), 10) == n,
        forall|i: int| 0 <= i < octet_text(n).len() ==> octet_text(n)[i] != '.',
{
    let t = octet_text(n);
    assert forall|d: int| 0 <= d <= 9 implies digit_value(#[trigger] digit_char(d)) == d by {}
    reveal_with_fuel(numeral_value, 4);
    if n < 10 {
        assert(t.drop_last() =~= Seq::<char>::empty());
    } else if n < 100 {
        assert(t.drop_last() =~= seq![digit_char(n / 10)]);
        assert(t.drop_last().drop_last() =~= Seq::<char>::empty());
    } else {
        assert(t.drop_last() =~= seq![digit_char(n / 100), digit_char((n / 10) % 10)]);
        assert(t.drop_last().drop_last() =~= seq![digit_char(n / 100)]);
        assert(t.drop_last().drop_last().drop_last() =~= Seq::<char>::empty());
    }
    assert forall|i: int| 0 <= i < t.len() implies digit_value(#[trigger] t[i]) < 10 && t[i]
        != '.' by {}
}

/// Where a piece without a dot stands in a text, followed by a dot or by
/// the end of the text, the next stop after its start is its end.
proof fn lemma_piece_ends(s: Seq<char>, from: int, piece: Seq<char>)
    requires
        0 <= from,
        from + piece.len() <= s.len(),
        s.subrange(from, from + piece.len()) == piece,
        forall|i: int| 0 <= i < piece.len() ==> piece[i] != '.',
        from + piece.len() == s.len() || s[from + piece.len()] == '.',
    ensures
        next_stop(s, from, '.') == from + piece.len(),
{
    assert forall|i: int| from <= i < from + piece.len() implies s[i] != '.' by {
        assert(s.subrange(from, from + piece.len())[i - from] == s[i]);
    }
    lemma_next_stop_at(s, from, from + piece.len(), '.');
}

/// The dotted-decimal text of an address is read back as the address.
pub proof fn lemma_ipv4_text_round_trip(octets: Seq<u8>)
    requires
        octets.len() == 4,
    ensures
        ipv4_from_text(ipv4_text(octets)) == Some(octets),
{
    let s = ipv4_text(octets);
    let a = octet_text(octets[0] as int);
    let b = octet_text(octets[1] as int);
    let c = octet_text(octets[2] as int);
    let d = octet_text(octets[3] as int);
    lemma_octet_text(octets[0] as int);
    lemma_octet_text(octets[1] as int);
    lemma_octet_text(octets[2] as int);
    lemma_octet_text(octets[3] as int);
    let dot = seq!['.'];
    assert(s == a + dot + b + dot + c + dot + d);
    let pb: int = a.len() as int + 1;
    let pc: int = pb + b.len() + 1;
    let pd: int = pc + c.len() + 1;
    assert(s.len() == pd + d.len());
    assert(s.subrange(0, a.len() as int) =~= a);
    assert(s.subrange(pb, pb + b.len()) =~= b);
    assert(s.subrange(pc, pc + c.len()) =~= c);
    assert(s.subrange(pd, pd + d.len()) =~= d);
    assert(s[a.len() as int] == '.');
    assert(s[pb + b.len()] == '.');
    assert(s[pc + c.len()] == '.');
    lemma_piece_ends(s, 0, a);
    lemma_piece_ends(s, pb, b);
    lemma_piece_ends(s, pc, c);
    lemma_piece_ends(s, pd, d);
    reveal_with_fuel(octets_from, 5);
    assert(octets_from(s, pd, 1) == Some(seq![octets[3]]));
    assert(octets_from(s, pc, 2) == Some(seq![octets[2]] + seq![octets[3]]));
    assert(octets_from(s, pb, 3) == Some(seq![octets[1]] + (seq![octets[2]] + seq![octets[3]])));
    assert(seq![octets[0]] + (seq![octets[1]] + (seq![octets[2]] + seq![octets[3]])) =~= octets);
}

/// The value of a character as a digit.
pub fn digit_of(c: char) -> (d: u8)
    ensures
        d == digit_value(c),
{
    let code: u32 = c as u32;
    if 48 <= code && code <= 57 {
        (code - 48) as u8
    } else if 97 <= code && code <= 102 {
        (code - 87) as u8
    } else if 65 <= code && code <= 70 {
        (code - 55) as u8
    } else {
        16
    }
}

/// The place of the first `stop` at or after `from`, or the length of the text.
pub fn find_stop(text: &Vec<char>, from: usize, stop: char) -> (end: usize)
    requires
        from <= text@.len(),
    ensures
        end == next_stop(text@, from as int, stop),
        from <= end <= text@.len(),
{
    let mut pos: usize = from;
    while pos < text.len() && text[pos] != stop
        invariant
            from <= pos <= text@.len(),
            forall|i: int| from <= i < pos ==> text@[i] != stop,
        decreases text@.len() - pos,
    {
        pos += 1;
    }
    proof {
        lemma_next_stop_at(text@, from as int, pos as int, stop);
    }
    pos
}

/// Reads the number that the digits of the text from `from` up to `to`
/// write in a base, if they are between one and `most` digits of that base.
pub fn read_number(text: &Vec<char>, from: usize, to: usize, base: u8, most: usize) -> (value:
    Option<u32>)
    requires
        from <= to <= text@.len(),
        2 <= base <= 16,
        most <= 4,
    ensures
        ({
            let part = text@.subrange(from as int, to as int);
            let fits = 1 <= part.len() <= most && forall|i: int|
                0 <= i < part.len() ==> digit_value(#[trigger] part[i]) < base;
            match value {
                Some(v) => fits && v == numeral_value(part, base as int) && v < 0x1_0000,
                None => !fits,
            }
        }),
{
    if to - from < 1 || to - from > most {
        return None;
    }
    let ghost part = text@.subrange(from as int, to as int);
    let mut value: u32 = 0;
    let mut pos: usize = from;
    while pos < to
        invariant
            from <= pos <= to <= text@.len(),
            to - from <= 4,
            2 <= base <= 16,
            part == text@.subrange(from as int, to as int),
            forall|i: int| 0 <= i < pos - from ==> digit_value(#[trigger] part[i]) < base,
            value == numeral_value(text@.subrange(from as int, pos as int), base as int),
            pos - from == 0 ==> value == 0,
            pos - from == 1 ==> value < 0x10,
            pos - from == 2 ==> value < 0x100,
            pos - from == 3 ==> value < 0x1000,
            pos - from == 4 ==> value < 0x1_0000,
        decreases to - pos,
    {
        let d: u8 = digit_of(text[pos]);
        assert(part[pos - from] == text@[pos as int]);
        if d >= base {
            return None;
        }
        let ghost shorter = text@.subrange(from as int, pos as int);
        let ghost longer = text@.subrange(from as int, pos + 1);
        assert(longer.drop_last() =~= shorter);
        assert(longer.last() == text@[pos as int]);
        assert(value * base <= value * 16) by (nonlinear_arith)
            requires
                base <= 16,
                value >= 0,
        ;
        value = value * (base as u32) + d as u32;
        pos += 1;
    }
    assert(text@.subrange(from as int, pos as int) =~= part);
    Some(value)
}

/// Reads the octet that the text writes from `from` up to `to`.
pub fn read_octet(text: &Vec<char>, from: usize, to: usize) -> (value: Option<u8>)
    requires
        from <= to <= text@.len(),
    ensures
        ({
            let part = text@.subrange(from as int, to as int);
            match value {
                Some(v) => is_octet_text(part) && v == numeral_value(part, 10),
                None => !is_octet_text(part),
            }
        }),
{
    match read_number(text, from, to, 10, 3) {
        None => None,
        Some(v) => {
            assert(text@.subrange(from as int, to as int)[0] == text@[from as int]);
            if (to - from > 1 && text[from] == '0') || v > 255 {
                None
            } else {
                Some(v as u8)
            }
        },
    }
}

/// Reads the octets that the text writes from `from` on: `count` of them,
/// with a dot between each two.
pub fn read_octets(text: &Vec<char>, from: usize, count: usize) -> (octets: Option<Vec<u8>>)
    requires
        from <= text@.len(),
        count <= 4,
    ensures
        match octets_from(text@, from as int, count as nat) {
            Some(o) => octets matches Some(v) && v@ == o && o.len() == count,
            None => octets is None,
        },
    decreases count,
{
    if count == 0 {
        return None;
    }
    let end: usize = find_stop(text, from, '.');
    match read_octet(text, from, end) {
        None => None,
        Some(first) => {
            if count == 1 {
                if end == text.len() {
                    let mut octets: Vec<u8> = Vec::new();
                    octets.push(first);
                    assert(octets@ =~= seq![first]);
                    Some(octets)
                } else {
                    None
                }
            } else if end == text.len() {
                None
            } else {
                match read_octets(text, end + 1, count - 1) {
                    None => None,
                    Some(rest) => {
                        let ghost tail = rest@;
                        let mut octets: Vec<u8> = Vec::new();
                        octets.push(first);
                        let mut rest = rest;
                        octets.append(&mut rest);
                        assert(octets@ =~= seq![first] + tail);
                        Some(octets)
                    },
                }
            }
        },
    }
}

/// Reads an IPv4 address from the characters of its dotted-decimal text.
pub fn ipv4_from_chars(text: &Vec<char>) -> (addr: Option<Ipv4Addr>)
    ensures
        match ipv4_from_text(text@) {
            Some(o) => addr matches Some(a) && a.octets@ == o,
            None => addr is None,
        },
{
    match read_octets(text, 0, 4) {
        None => None,
        Some(v) => {
            let octets: [u8; 4] = [v[0], v[1], v[2], v[3]];
            assert(octets@ =~= v@);
            Some(Ipv4Addr { octets })
        },
    }
}

/// Reads an IPv4 address from its dotted-decimal text: four numbers up to
/// 255, without a zero in front of another digit, with dots between them.
pub fn parse_ipv4(s: &str) -> (outcome: Result<Ipv4Addr, EncodeError>)
    ensures
        match ipv4_from_text(s@) {
            Some(o) => outcome matches Ok(a) && a.octets@ == o,
            None => outcome matches Err(e) && e@ == EncodeErrorView::InvalidFormat(
                invalid_ipv4(s@),
            ),
        },
{
    let text = chars_of(s);
    match ipv4_from_chars(&text) {
        Some(addr) => Ok(addr),
        None => {
            let mut detail = "Invalid IPv4 address: ".to_owned();
            detail.append(s);
            Err(EncodeError::InvalidFormat(detail))
        },
    }
}

/// The pieces of a text that the ranges `(from, to)` cut out of it.
pub open spec fn ranges_pieces(s: Seq<char>, ranges: Seq<(usize, usize)>) -> Seq<Seq<char>> {
    Seq::new(ranges.len(), |i: int| s.subrange(ranges[i].0 as int, ranges[i].1 as int))
}

/// Octets read from a text are as many as were asked for.
pub proof fn lemma_octets_len(s: Seq<char>, from: int, count: nat)
    ensures
        octets_from(s, from, count) matches Some(o) ==> o.len() == count,
    decreases count,
{
    let end = next_stop(s, from, '.');
    if count > 1 && end != s.len() {
        lemma_octets_len(s, end + 1, (count - 1) as nat);
    }
}

/// Every piece gives at least two octets.
pub proof fn lemma_pieces_octets_len(pieces: Seq<Seq<char>>, dotted: bool)
    ensures
        pieces_octets(pieces, dotted) matches Some(o) ==> o.len() >= 2 * pieces.len(),
    decreases pieces.len(),
{
    if pieces.len() > 0 {
        if is_group_text(pieces[0]) {
            lemma_pieces_octets_len(pieces.skip(1), dotted);
        } else {
            lemma_octets_len(pieces[0], 0, 4);
        }
    }
}

/// Cuts a text at every colon: the ranges of its pieces, in order.
pub fn split_colons(text: &Vec<char>) -> (ranges: Vec<(usize, usize)>)
    ensures
        ranges_pieces(text@, ranges@) == pieces_from(text@, 0),
        ranges@.len() >= 1,
        forall|i: int|
            0 <= i < ranges@.len() ==> (#[trigger] ranges@[i]).0 <= ranges@[i].1 <= text@.len(),
{
    let mut ranges: Vec<(usize, usize)> = Vec::new();
    let mut from: usize = 0;
    let mut more: bool = true;
    assert(ranges_pieces(text@, ranges@) =~= Seq::<Seq<char>>::empty());
    while more
        invariant
            from <= text@.len(),
            forall|i: int|
                0 <= i < ranges@.len() ==> (#[trigger] ranges@[i]).0 <= ranges@[i].1
                    <= text@.len(),
            more ==> pieces_from(text@, 0) == ranges_pieces(text@, ranges@) + pieces_from(
                text@,
                from as int,
            ),
            !more ==> pieces_from(text@, 0) == ranges_pieces(text@, ranges@) && ranges@.len() >= 1,
        decreases text@.len() - from + (if more { 1int } else { 0int }),
    {
        let ghost before = ranges_pieces(text@, ranges@);
        let end: usize = find_stop(text, from, ':');
        ranges.push((from, end));
        assert(ranges_pieces(text@, ranges@) =~= before.push(
            text@.subrange(from as int, end as int),
        ));
        if end >= text.len() {
            more = false;
            assert(pieces_from(text@, from as int) =~= seq![
                text@.subrange(from as int, end as int),
            ]);
            assert(before + seq![text@.subrange(from as int, end as int)] =~= before.push(
                text@.subrange(from as int, end as int),
            ));
        } else {
            assert(pieces_from(text@, from as int) =~= seq![
                text@.subrange(from as int, end as int),
            ] + pieces_from(text@, end + 1));
            assert(before + (seq![text@.subrange(from as int, end as int)] + pieces_from(
                text@,
                end + 1,
            )) =~= before.push(text@.subrange(from as int, end as int)) + pieces_from(
                text@,
                end + 1,
            ));
            from = end + 1;
        }
    }
    ranges
}

/// The characters of the text from `from` up to `to`.
pub fn copy_chars(text: &Vec<char>, from: usize, to: usize) -> (part: Vec<char>)
    requires
        from <= to <= text@.len(),
    ensures
        part@ == text@.subrange(from as int, to as int),
{
    let mut part: Vec<char> = Vec::new();
    let mut pos: usize = from;
    while pos < to
        invariant
            from <= pos <= to <= text@.len(),
            part@ =~= text@.subrange(from as int, pos as int),
        decreases to - pos,
    {
        part.push(text[pos]);
        pos += 1;
    }
    part
}

/// Reads the octets that the pieces `lo` up to `hi` write.
pub fn read_pieces(
    text: &Vec<char>,
    ranges: &Vec<(usize, usize)>,
    lo: usize,
    hi: usize,
    dotted: bool,
) -> (octets: Option<Vec<u8>>)
    requires
        lo <= hi <= ranges@.len(),
        forall|i: int|
            0 <= i < ranges@.len() ==> (#[trigger] ranges@[i]).0 <= ranges@[i].1 <= text@.len(),
    ensures
        match pieces_octets(
            ranges_pieces(text@, ranges@).subrange(lo as int, hi as int),
            dotted,
        ) {
            Some(o) => octets matches Some(v) && v@ == o,
            None => octets is None,
        },
    decreases hi - lo,
{
    let ghost pieces = ranges_pieces(text@, ranges@).subrange(lo as int, hi as int);
    if lo == hi {
        return Some(Vec::new());
    }
    let (from, to) = ranges[lo];
    assert(pieces[0] == text@.subrange(from as int, to as int));
    assert(pieces.skip(1) =~= ranges_pieces(text@, ranges@).subrange(lo + 1, hi as int));
    match read_number(text, from, to, 16, 4) {
        Some(group) => {
            match read_pieces(text, ranges, lo + 1, hi, dotted) {
                None => None,
                Some(rest) => {
                    let ghost tail = rest@;
                    let mut octets: Vec<u8> = Vec::new();
                    octets.push((group / 0x100) as u8);
                    octets.push((group % 0x100) as u8);
                    let mut rest = rest;
                    octets.append(&mut rest);
                    assert(octets@ =~= group_octets(group as u16) + tail);
                    Some(octets)
                },
            }
        },
        None => {
            if hi - lo == 1 && dotted {
                let part = copy_chars(text, from, to);
                match read_octets(&part, 0, 4) {
                    Some(v) => Some(v),
                    None => None,
                }
            } else {
                None
            }
        },
    }
}

/// Sixteen octets: those of `front`, those of `back`, and zeros between.
pub fn assemble(front: &Vec<u8>, back: &Vec<u8>) -> (octets: [u8; 16])
    requires
        front@.len() + back@.len() <= 16,
    ensures
        octets@ == front@ + zero_octets(16 - front@.len() - back@.len()) + back@,
{
    let mut octets: [u8; 16] = [0u8; 16];
    let mut i: usize = 0;
    while i < front.len()
        invariant
            i <= front@.len(),
            front@.len() + back@.len() <= 16,
            forall|j: int| 0 <= j < i ==> octets@[j] == front@[j],
            forall|j: int| i <= j < 16 ==> octets@[j] == 0,
        decreases front@.len() - i,
    {
        octets[i] = front[i];
        i += 1;
    }
    let base: usize = 16 - back.len();
    let mut k: usize = 0;
    while k < back.len()
        invariant
            k <= back@.len(),
            base == 16 - back@.len(),
            front@.len() <= base,
            forall|j: int| 0 <= j < front@.len() ==> octets@[j] == front@[j],
            forall|j: int| front@.len() <= j < base ==> octets@[j] == 0,
            forall|j: int| 0 <= j < k ==> octets@[base + j] == back@[j],
        decreases back@.len() - k,
    {
        octets[base + k] = back[k];
        k += 1;
    }
    assert(octets@ =~= front@ + zero_octets(16 - front@.len() - back@.len()) + back@);
    octets
}

/// Reads an IPv6 address from the characters of its text.
pub fn ipv6_from_chars(text: &Vec<char>) -> (addr: Option<Ipv6Addr>)
    ensures
        match ipv6_from_text(text@) {
            Some(o) => addr matches Some(a) && a.octets@ == o,
            None => addr is None,
        },
{
    let ranges = split_colons(text);
    let ghost pieces = pieces_from(text@, 0);
    let n: usize = ranges.len();
    let mut gap: usize = 0;
    while gap < n && ranges[gap].0 != ranges[gap].1
        invariant
            gap <= n == ranges@.len(),
            pieces == ranges_pieces(text@, ranges@),
            forall|i: int|
                0 <= i < ranges@.len() ==> (#[trigger] ranges@[i]).0 <= ranges@[i].1
                    <= text@.len(),
            first_empty(pieces, gap as int) == first_empty(pieces, 0),
        decreases n - gap,
    {
        assert(pieces[gap as int].len() == ranges@[gap as int].1 - ranges@[gap as int].0);
        gap += 1;
    }
    if gap < n {
        assert(pieces[gap as int].len() == ranges@[gap as int].1 - ranges@[gap as int].0);
    }
    let empty: Vec<u8> = Vec::new();
    if gap >= n {
        assert(pieces.subrange(0, n as int) =~= pieces);
        proof {
            lemma_pieces_octets_len(pieces, true);
        }
        if n > 8 {
            return None;
        }
        match read_pieces(text, &ranges, 0, n, true) {
            Some(v) => {
                if v.len() == 16 {
                    let octets = assemble(&v, &empty);
                    assert(octets@ =~= v@);
                    Some(Ipv6Addr { octets })
                } else {
                    None
                }
            },
            None => None,
        }
    } else if gap == n - 1 {
        None
    } else {
        if gap == 0 {
            assert(pieces[1].len() == ranges@[1].1 - ranges@[1].0);
            if n < 3 || ranges[1].0 != ranges[1].1 {
                return None;
            }
        }
        let start: usize = if gap == 0 {
            2
        } else {
            gap + 1
        };
        let ghost rest = pieces.skip(start as int);
        let ghost tail = pieces_after_gap(pieces, gap as int);
        let bare: bool = n - start == 1 && ranges[start].0 == ranges[start].1;
        if n - start == 1 {
            assert(rest[0].len() == ranges@[start as int].1 - ranges@[start as int].0);
        }
        let lo: usize = if bare {
            n
        } else {
            start
        };
        assert(tail =~= pieces.subrange(lo as int, n as int));
        assert(pieces.take(gap as int) =~= pieces.subrange(0, gap as int));
        proof {
            lemma_pieces_octets_len(pieces.take(gap as int), false);
            lemma_pieces_octets_len(tail, true);
        }
        if gap > 7 || n - lo > 7 {
            return None;
        }
        match read_pieces(text, &ranges, 0, gap, false) {
            None => None,
            Some(front) => match read_pieces(text, &ranges, lo, n, true) {
                None => None,
                Some(back) => {
                    if front.len() > 14 || back.len() > 14 - front.len() {
                        None
                    } else {
                        Some(Ipv6Addr { octets: assemble(&front, &back) })
                    }
                },
            },
        }
    }
}

/// Reads an IPv6 address from its text: groups of hexadecimal digits with
/// colons between them, a double colon for a run of zero groups, and
/// possibly a dotted-decimal address for the last two groups.
pub fn parse_ipv6(s: &str) -> (outcome: Result<Ipv6Addr, EncodeError>)
    ensures
        match ipv6_from_text(s@) {
            Some(o) => outcome matches Ok(a) && a.octets@ == o,
            None => outcome matches Err(e) && e@ == EncodeErrorView::InvalidFormat(
                invalid_ipv6(s@),
            ),
        },
{
    let text = chars_of(s);
    match ipv6_from_chars(&text) {
        Some(addr) => Ok(addr),
        None => {
            let mut detail = "Invalid IPv6 address: ".to_owned();
            detail.append(s);
            Err(EncodeError::InvalidFormat(detail))
        },
    }
}

/// What reading `n` raw octets off `input` gives.
pub open spec fn octets_unwire(input: Seq<u8>, n: int) -> Result<
    (Seq<u8>, Seq<u8>),
    DecodeErrorView,
> {
    if input.len() < n {
        Err(DecodeErrorView::UnexpectedEof)
    } else {
        Ok((input.take(n), input.skip(n)))
    }
}

/// Appends the four octets of an IPv4 address.
pub fn encode_ipv4(buf: &mut BytesMut, addr: &Ipv4Addr) -> (outcome: Result<(), EncodeError>)
    ensures
        committed(written(*old(buf)), written(*final(buf)), outcome, Ok(addr.octets@)),
{
    append(buf, addr.octets.as_slice())
}

/// Reads the four octets of an IPv4 address off the buffer.
pub fn decode_ipv4(buf: &mut Bytes) -> (outcome: Result<Ipv4Addr, DecodeError>)
    ensures
        is_tail(unread(*final(buf)), unread(*old(buf))),
        match octets_unwire(unread(*old(buf)), 4) {
            Ok((octets, rest)) => outcome matches Ok(a) && a.octets@ == octets && unread(
                *final(buf),
            ) == rest,
            Err(e) => outcome matches Err(x) && x@ == e,
        },
{
    if remaining(buf) < 4 {
        return Err(DecodeError::UnexpectedEof);
    }
    let head = split_to(buf, 4);
    let src = unread_bytes(&head);
    let octets: [u8; 4] = [src[0], src[1], src[2], src[3]];
    assert(octets@ =~= src@);
    Ok(Ipv4Addr { octets })
}

/// Appends the sixteen octets of an IPv6 address.
pub fn encode_ipv6(buf: &mut BytesMut, addr: &Ipv6Addr) -> (outcome: Result<(), EncodeError>)
    ensures
        committed(written(*old(buf)), written(*final(buf)), outcome, Ok(addr.octets@)),
{
    append(buf, addr.octets.as_slice())
}

/// Reads the sixteen octets of an IPv6 address off the buffer.
pub fn decode_ipv6(buf: &mut Bytes) -> (outcome: Result<Ipv6Addr, DecodeError>)
    ensures
        is_tail(unread(*final(buf)), unread(*old(buf))),
        match octets_unwire(unread(*old(buf)), 16) {
            Ok((octets, rest)) => outcome matches Ok(a) && a.octets@ == octets && unread(
                *final(buf),
            ) == rest,
            Err(e) => outcome matches Err(x) && x@ == e,
        },
{
    if remaining(buf) < 16 {
        return Err(DecodeError::UnexpectedEof);
    }
    let head = split_to(buf, 16);
    let src = unread_bytes(&head);
    let mut octets: [u8; 16] = [0u8; 16];
    let mut i: usize = 0;
    while i < 16
        invariant
            i <= 16,
            src@.len() == 16,
            forall|j: int| 0 <= j < i ==> octets@[j] == src@[j],
        decreases 16 - i,
    {
        octets[i] = src[i];
        i += 1;
    }
    assert(octets@ =~= src@);
    Ok(Ipv6Addr { octets })
}

/// Size of an IPv4 address on the wire.
pub fn ipv4_size() -> (n: usize)
    ensures
        n == 4,
{
    4
}

/// Size of an IPv6 address on the wire.
pub fn ipv6_size() -> (n: usize)
    ensures
        n == 16,
{
    16
}

} // verus!
