//! Dotted-quad notation: a 32-bit word as four octets, and four octets as text.

use crate::decimal::{decimal, push_decimal};
use vstd::prelude::*;
use vstd::string::*;

verus! {

/// Octet `i` of `word`, octet 0 being the most significant.
pub open spec fn octet(word: u32, i: u32) -> u32 {
    (word >> (((3 - i) * 8) as u32)) & 0xFFu32
}

/// The four octets of `word`, most significant first.
pub open spec fn quads(word: u32) -> Seq<u32> {
    seq![octet(word, 0), octet(word, 1), octet(word, 2), octet(word, 3)]
}

/// The word whose octets are `a`, `b`, `c` and `d`, most significant first.
pub open spec fn pack(a: u32, b: u32, c: u32, d: u32) -> u32 {
    (a << 24u32) | (b << 16u32) | (c << 8u32) | d
}

/// The numbers of `q` in decimal, with a dot between neighbours.
pub open spec fn dotted(q: Seq<u32>) -> Seq<char>
    decreases q.len(),
{
    if q.len() == 0 {
        Seq::<char>::empty()
    } else if q.len() == 1 {
        decimal(q[0] as nat)
    } else {
        dotted(q.drop_last()) + seq!['.'] + decimal(q.last() as nat)
    }
}

/// The text of `word` in dotted-quad notation, as in `192.168.1.0`.
pub open spec fn dotted_quad(word: u32) -> Seq<char> {
    dotted(quads(word))
}

/// An octet is below 256, and the four octets of a word make up the word.
pub proof fn lemma_quads_pack(word: u32)
    ensures
        forall|i: u32| i < 4 ==> #[trigger] octet(word, i) <= 255,
        pack(octet(word, 0), octet(word, 1), octet(word, 2), octet(word, 3)) == word,
{
    assert forall|i: u32| i < 4 implies #[trigger] octet(word, i) <= 255 by {
        assert(octet(word, i) <= 255) by (bit_vector)
            requires
                i < 4,
        ;
    }
    assert(pack(octet(word, 0), octet(word, 1), octet(word, 2), octet(word, 3)) == word)
        by (bit_vector);
}

/// Four octets packed into a word are the octets of that word.
pub proof fn lemma_pack_quads(a: u32, b: u32, c: u32, d: u32)
    requires
        a <= 255,
        b <= 255,
        c <= 255,
        d <= 255,
    ensures
        quads(pack(a, b, c, d)) == seq![a, b, c, d],
{
    assert(octet(pack(a, b, c, d), 0) == a && octet(pack(a, b, c, d), 1) == b && octet(
        pack(a, b, c, d),
        2,
    ) == c && octet(pack(a, b, c, d), 3) == d) by (bit_vector)
        requires
            a <= 255,
            b <= 255,
            c <= 255,
            d <= 255,
    ;
}

/// Splits `word` into its four octets, most significant first.
pub fn quads_of(word: u32) -> (q: Vec<u32>)
    ensures
        q@ == quads(word),
{
    let mut q: Vec<u32> = Vec::new();
    let mut i: u32 = 0;
    while i < 4
        invariant
            i <= 4,
            q@.len() == i,
            forall|k: int| 0 <= k < i ==> q@[k] == octet(word, k as u32),
        decreases 4 - i,
    {
        let shift: u32 = 24 - 8 * i;
        let part: u32 = (word >> shift) & 0xFF;
        assert(part == octet(word, i)) by (bit_vector)
            requires
                i < 4,
                shift == 24 - 8 * i,
                part == (word >> shift) & 0xFF,
        ;
        q.push(part);
        i = i + 1;
    }
    assert(q@ =~= quads(word));
    q
}

/// Writes the numbers of `q` in decimal, with a dot between neighbours.
pub fn format_quads(q: &Vec<u32>) -> (text: String)
    ensures
        text@ == dotted(q@),
{
    proof {
        reveal_strlit(".");
    }
    let mut text = String::new();
    let mut i: usize = 0;
    while i < q.len()
        invariant
            i <= q.len(),
            text@ == dotted(q@.take(i as int)),
            "."@ == seq!['.'],
        decreases q.len() - i,
    {
        if i > 0 {
            text.append(".");
        }
        push_decimal(&mut text, q[i]);
        proof {
            let next = q@.take(i + 1);
            assert(next.drop_last() =~= q@.take(i as int));
            if i == 0 {
                assert(text@ =~= decimal(q@[0] as nat));
            }
        }
        i = i + 1;
    }
    assert(q@.take(i as int) =~= q@);
    text
}

} // verus!
