//! Internet addresses in text.

use crate::numbers::{all_digits, digits_of, digits_read_back, is_digit, parse_unsigned, value, write_digits};
use crate::text::{append, chars_of, lemma_position_is, split, split_on, text_of, views};
use vstd::prelude::*;

verus! {

/// A version 4 internet address.
#[derive(Clone, Copy, Debug, PartialEq, Eq, Structural)]
pub struct Ipv4Address {
    pub a: u8,
    pub b: u8,
    pub c: u8,
    pub d: u8,
}

/// The number that a part of an address stands for: up to three digits, without
/// leading zeros, at most 255.
pub open spec fn octet(s: Seq<char>) -> Option<int> {
    if all_digits(s) && s.len() <= 3 && (s.len() == 1 || s[0] != '0') && value(s) <= 255 {
        Some(value(s) as int)
    } else {
        None
    }
}

fn read_octet(s: &[char]) -> (r: Option<u8>)
    ensures
        match r {
            Some(n) => octet(s@) == Some(n as int),
            None => octet(s@) is None,
        },
{
    if s.len() == 0 || s.len() > 3 || s[0] == '+' || (s.len() > 1 && s[0] == '0') {
        return None;
    }
    match parse_unsigned(s, 255) {
        Some(n) => Some(n as u8),
        None => None,
    }
}

/// The address that a text stands for: four numbers between dots.
pub open spec fn address(s: Seq<char>) -> Option<Ipv4Address> {
    let parts = split_on(s, '.');
    if parts.len() == 4 && octet(parts[0]) is Some && octet(parts[1]) is Some && octet(parts[2]) is Some && octet(
        parts[3],
    ) is Some {
        Some(
            Ipv4Address {
                a: octet(parts[0])->0 as u8,
                b: octet(parts[1])->0 as u8,
                c: octet(parts[2])->0 as u8,
                d: octet(parts[3])->0 as u8,
            },
        )
    } else {
        None
    }
}

impl Ipv4Address {
    /// Reads an address.
    pub fn parse(text: &str) -> (r: Option<Ipv4Address>)
        ensures
            r == address(text@),
    {
        let chars = chars_of(text);
        let parts = split(chars.as_slice(), '.');
        if parts.len() != 4 {
            return None;
        }
        proof {
            let seen = views(parts@);
            assert(seen[0] == parts@[0]@ && seen[1] == parts@[1]@ && seen[2] == parts@[2]@ && seen[3] == parts@[3]@);
        }
        match (
            read_octet(parts[0].as_slice()),
            read_octet(parts[1].as_slice()),
            read_octet(parts[2].as_slice()),
            read_octet(parts[3].as_slice()),
        ) {
            (Some(a), Some(b), Some(c), Some(d)) => Some(Ipv4Address { a, b, c, d }),
            _ => None,
        }
    }

    /// The text of the address.
    pub open spec fn dotted(self) -> Seq<char> {
        digits_of(self.a as nat) + seq!['.'] + digits_of(self.b as nat) + seq!['.'] + digits_of(self.c as nat) + seq![
            '.',
        ] + digits_of(self.d as nat)
    }

    /// Writes an address.
    pub fn text(&self) -> (r: String)
        ensures
            r@ == self.dotted(),
    {
        let mut chars = write_digits(self.a as u64);
        let b = write_digits(self.b as u64);
        let c = write_digits(self.c as u64);
        let d = write_digits(self.d as u64);
        chars.push('.');
        append(&mut chars, b.as_slice());
        chars.push('.');
        append(&mut chars, c.as_slice());
        chars.push('.');
        append(&mut chars, d.as_slice());
        proof {
            assert(chars@ =~= self.dotted());
        }
        text_of(chars.as_slice())
    }
}

proof fn lemma_octet_text(n: u8)
    ensures
        octet(digits_of(n as nat)) == Some(n as int),
        forall|i: int| 0 <= i < digits_of(n as nat).len() ==> #[trigger] digits_of(n as nat)[i] != '.',
{
    let s = digits_of(n as nat);
    digits_read_back(n as nat);
    reveal_with_fuel(digits_of, 4);
    assert forall|i: int| 0 <= i < s.len() implies #[trigger] s[i] != '.' by {
        assert(is_digit(s[i]));
    }
}

proof fn lemma_split_first(head: Seq<char>, tail: Seq<char>)
    requires
        forall|i: int| 0 <= i < head.len() ==> head[i] != '.',
    ensures
        split_on(head + seq!['.'] + tail, '.') == seq![head] + split_on(tail, '.'),
{
    let s = head + seq!['.'] + tail;
    assert forall|i: int| 0 <= i < head.len() implies s[i] != '.' by {
        assert(s[i] == head[i]);
    }
    lemma_position_is(s, '.', head.len() as int);
    assert(s.take(head.len() as int) =~= head);
    assert(s.skip(head.len() as int + 1) =~= tail);
}

/// What is written for an address is read as that address.
pub proof fn address_reads_back(ip: Ipv4Address)
    ensures
        address(ip.dotted()) == Some(ip),
{
    let a = digits_of(ip.a as nat);
    let b = digits_of(ip.b as nat);
    let c = digits_of(ip.c as nat);
    let d = digits_of(ip.d as nat);
    lemma_octet_text(ip.a);
    lemma_octet_text(ip.b);
    lemma_octet_text(ip.c);
    lemma_octet_text(ip.d);
    let dot = seq!['.'];
    let t3 = c + dot + d;
    let t2 = b + dot + t3;
    assert(ip.dotted() =~= a + dot + t2);
    lemma_split_first(a, t2);
    lemma_split_first(b, t3);
    lemma_split_first(c, d);
    lemma_position_is(d, '.', d.len() as int);
    assert(split_on(d, '.') =~= seq![d]);
    assert(split_on(ip.dotted(), '.') =~= seq![a, b, c, d]);
}

proof fn lemma_octet_is_its_text(s: Seq<char>)
    requires
        octet(s) is Some,
    ensures
        0 <= octet(s)->0 <= 255,
        s == digits_of(octet(s)->0 as nat),
{
    let n = octet(s)->0;
    reveal_with_fuel(digits_of, 4);
    reveal_with_fuel(value, 4);
    assert(is_digit(s[0]));
    assert(s =~= seq![s[0]] + s.skip(1));
    if s.len() == 1 {
        assert(s.drop_last() =~= seq![]);
        assert(s =~= digits_of(n as nat));
    } else if s.len() == 2 {
        assert(is_digit(s[1]));
        assert(s.drop_last() =~= seq![s[0]]);
        assert(s.drop_last().drop_last() =~= seq![]);
        assert(s =~= digits_of(n as nat));
    } else {
        assert(is_digit(s[1]) && is_digit(s[2]));
        assert(s.drop_last() =~= seq![s[0], s[1]]);
        assert(s.drop_last().drop_last() =~= seq![s[0]]);
        assert(s.drop_last().drop_last().drop_last() =~= seq![]);
        assert(s =~= digits_of(n as nat));
    }
}

/// A text is read as an address only where it is what is written for that address: four
/// numbers up to 255 without zeros before them, with a dot between any two.
pub proof fn only_written_addresses_are_read(s: Seq<char>)
    requires
        address(s) is Some,
    ensures
        s == address(s)->0.dotted(),
{
    let parts = split_on(s, '.');
    crate::text::pieces_join(s, '.');
    lemma_octet_is_its_text(parts[0]);
    lemma_octet_is_its_text(parts[1]);
    lemma_octet_is_its_text(parts[2]);
    lemma_octet_is_its_text(parts[3]);
    reveal_with_fuel(crate::text::joined_by, 5);
    assert(parts.skip(1).skip(1).skip(1)[0] == parts[3]);
    assert(parts.skip(1).skip(1)[0] == parts[2]);
    assert(s =~= address(s)->0.dotted());
}

} // verus!
