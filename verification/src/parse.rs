//! Reading CIDR notation: `A.B.C.D/N`, four octets and a prefix length.

use crate::block::CidrBlock;
use crate::decimal::{decimal, is_digit, lemma_decimal_reads_back, numeral_up_to, read_numeral};
use crate::quad::{
    dotted, dotted_quad, lemma_pack_quads, lemma_quads_pack, octet, pack, quads,
};
use vstd::prelude::*;
use vstd::string::*;

verus! {

/// Why a text is not a block in CIDR notation. Each variant holds the text at fault.
#[derive(Debug, PartialEq, Eq)]
pub enum ParseError {
    /// The address part is not four numerals from 0 to 255 with dots between them.
    MalformedAddress(String),
    /// The prefix part is not a numeral from 0 to 32.
    MalformedPrefix(String),
    /// The text holds no `/` to part the address from the prefix length.
    MissingSeparator(String),
}

/// A `ParseError` with its texts as sequences of characters.
pub enum ParseErrorView {
    MalformedAddress(Seq<char>),
    MalformedPrefix(Seq<char>),
    MissingSeparator(Seq<char>),
}

impl View for ParseError {
    type V = ParseErrorView;

    open spec fn view(&self) -> ParseErrorView {
        match self {
            ParseError::MalformedAddress(text) => ParseErrorView::MalformedAddress(text@),
            ParseError::MalformedPrefix(text) => ParseErrorView::MalformedPrefix(text@),
            ParseError::MissingSeparator(text) => ParseErrorView::MissingSeparator(text@),
        }
    }
}

/// The index of the first `c` in `s`, or the length of `s` where it holds none.
pub open spec fn first_index(s: Seq<char>, c: char) -> int
    decreases s.len(),
{
    if s.len() == 0 || s[0] == c {
        0
    } else {
        1 + first_index(s.drop_first(), c)
    }
}

/// The parts that `sep` divides `s` into, in their order: what stands before the first
/// separator, and the fields of what follows it.
pub open spec fn fields(s: Seq<char>, sep: char) -> Seq<Seq<char>>
    decreases s.len(),
{
    let i = first_index(s, sep);
    if 0 <= i < s.len() {
        seq![s.take(i)] + fields(s.skip(i + 1), sep)
    } else {
        seq![s]
    }
}

/// The address that a text denotes: four numerals from 0 to 255, divided by dots.
pub open spec fn address_of(text: Seq<char>) -> Option<u32> {
    let f = fields(text, '.');
    if f.len() == 4 && numeral_up_to(f[0], 255) is Some && numeral_up_to(f[1], 255) is Some
        && numeral_up_to(f[2], 255) is Some && numeral_up_to(f[3], 255) is Some {
        Some(
            pack(
                numeral_up_to(f[0], 255)->0 as u32,
                numeral_up_to(f[1], 255)->0 as u32,
                numeral_up_to(f[2], 255)->0 as u32,
                numeral_up_to(f[3], 255)->0 as u32,
            ),
        )
    } else {
        None
    }
}

/// The prefix length that a text denotes: a numeral from 0 to 32.
pub open spec fn prefix_of(text: Seq<char>) -> Option<u8> {
    match numeral_up_to(text, 32) {
        Some(n) => Some(n as u8),
        None => None,
    }
}

/// The block that a text in CIDR notation denotes, or what is wrong with the text.
///
/// The first `/` parts the address from the prefix length. Where both parts are at
/// fault, the address is reported.
pub open spec fn cidr_of(text: Seq<char>) -> Result<CidrBlock, ParseErrorView> {
    let i = first_index(text, '/');
    if 0 <= i < text.len() {
        match address_of(text.take(i)) {
            None => Err(ParseErrorView::MalformedAddress(text.take(i))),
            Some(address) => match prefix_of(text.skip(i + 1)) {
                None => Err(ParseErrorView::MalformedPrefix(text.skip(i + 1))),
                Some(prefix_length) => Ok(CidrBlock { address, prefix_length }),
            },
        }
    } else {
        Err(ParseErrorView::MissingSeparator(text))
    }
}

/// No `c` stands before the first index, and one stands at it unless `s` holds none.
pub proof fn lemma_first_index_is_first(s: Seq<char>, c: char)
    ensures
        0 <= first_index(s, c) <= s.len(),
        forall|j: int| 0 <= j < first_index(s, c) ==> s[j] != c,
        first_index(s, c) < s.len() ==> s[first_index(s, c)] == c,
    decreases s.len(),
{
    if s.len() > 0 && s[0] != c {
        let rest = s.drop_first();
        lemma_first_index_is_first(rest, c);
        assert forall|j: int| 0 <= j < first_index(s, c) implies s[j] != c by {
            if j > 0 {
                assert(s[j] == rest[j - 1]);
            }
        }
    }
}

/// The first index is the only place that no `c` stands before and that holds a `c` or
/// ends `s`.
pub proof fn lemma_first_index(s: Seq<char>, c: char, i: int)
    requires
        0 <= i <= s.len(),
        forall|j: int| 0 <= j < i ==> s[j] != c,
        i < s.len() ==> s[i] == c,
    ensures
        first_index(s, c) == i,
    decreases s.len(),
{
    if i > 0 {
        let rest = s.drop_first();
        assert forall|j: int| 0 <= j < i - 1 implies rest[j] != c by {
            assert(rest[j] == s[j + 1]);
        }
        lemma_first_index(rest, c, i - 1);
    }
}

/// A text has at least one field.
pub proof fn lemma_fields_nonempty(s: Seq<char>, sep: char)
    ensures
        fields(s, sep).len() >= 1,
{
}

/// A text that holds no separator is its own and only field.
pub proof fn lemma_fields_of_plain(s: Seq<char>, sep: char)
    requires
        forall|i: int| 0 <= i < s.len() ==> s[i] != sep,
    ensures
        fields(s, sep) == seq![s],
{
    lemma_first_index(s, sep, s.len() as int);
}

/// Where a separator follows a text that holds none, that text is the first field, and
/// the other fields are those of what follows the separator.
pub proof fn lemma_fields_of_joined(head: Seq<char>, tail: Seq<char>, sep: char)
    requires
        forall|i: int| 0 <= i < head.len() ==> head[i] != sep,
    ensures
        fields(head + seq![sep] + tail, sep) == seq![head] + fields(tail, sep),
{
    let s = head + seq![sep] + tail;
    lemma_first_index(s, sep, head.len() as int);
    assert(s.take(head.len() as int) =~= head);
    assert(s.skip(head.len() as int + 1) =~= tail);
}

/// The octets of an address that was read are the numbers of the four fields of its text.
pub proof fn lemma_address_octets(text: Seq<char>)
    requires
        address_of(text) is Some,
    ensures
        fields(text, '.').len() == 4,
        forall|k: int|
            0 <= k < 4 ==> numeral_up_to(#[trigger] fields(text, '.')[k], 255) == Some(
                quads(address_of(text)->0)[k] as nat,
            ),
{
    let f = fields(text, '.');
    lemma_pack_quads(
        numeral_up_to(f[0], 255)->0 as u32,
        numeral_up_to(f[1], 255)->0 as u32,
        numeral_up_to(f[2], 255)->0 as u32,
        numeral_up_to(f[3], 255)->0 as u32,
    );
}

/// A block that was read has a prefix length of at most 32.
pub proof fn lemma_cidr_of_valid(text: Seq<char>)
    ensures
        cidr_of(text) matches Ok(block) ==> block.valid(),
{
}

/// An address written in dotted-quad notation is read back as the same address.
pub proof fn lemma_dotted_quad_reads_back(word: u32)
    ensures
        address_of(dotted_quad(word)) == Some(word),
{
    let q = quads(word);
    let dot = seq!['.'];
    let d0 = decimal(q[0] as nat);
    let d1 = decimal(q[1] as nat);
    let d2 = decimal(q[2] as nat);
    let d3 = decimal(q[3] as nat);
    lemma_quads_pack(word);
    assert(octet(word, 0) <= 255 && octet(word, 1) <= 255 && octet(word, 2) <= 255 && octet(
        word,
        3,
    ) <= 255);
    lemma_decimal_reads_back(q[0] as nat);
    lemma_decimal_reads_back(q[1] as nat);
    lemma_decimal_reads_back(q[2] as nat);
    lemma_decimal_reads_back(q[3] as nat);
    assert(!is_digit('.'));
    let q3 = q.drop_last();
    let q2 = q3.drop_last();
    let q1 = q2.drop_last();
    assert(q3 =~= seq![q[0], q[1], q[2]]);
    assert(q2 =~= seq![q[0], q[1]]);
    assert(q1 =~= seq![q[0]]);
    assert(dotted(q1) == d0);
    assert(dotted(q2) == d0 + dot + d1);
    assert(dotted(q3) == d0 + dot + d1 + dot + d2);
    assert(dotted(q) == d0 + dot + d1 + dot + d2 + dot + d3);
    assert(dotted(q) =~= d0 + dot + (d1 + dot + (d2 + dot + d3)));
    lemma_fields_of_joined(d0, d1 + dot + (d2 + dot + d3), '.');
    lemma_fields_of_joined(d1, d2 + dot + d3, '.');
    lemma_fields_of_joined(d2, d3, '.');
    lemma_fields_of_plain(d3, '.');
    assert(fields(dotted_quad(word), '.') =~= seq![d0, d1, d2, d3]);
}

/// The characters of a text, one by one.
pub fn chars_of(text: &str) -> (chars: Vec<char>)
    ensures
        chars@ == text@,
{
    let mut chars: Vec<char> = Vec::new();
    for c in it: text.chars()
        invariant
            chars@ == it.seq().take(it.index() as int),
            it.seq() == text@,
    {
        chars.push(c);
    }
    chars
}

/// Finds the first `sep` at or after `start`; returns the length where there is none.
pub(crate) fn find_from(chars: &Vec<char>, start: usize, sep: char) -> (end: usize)
    requires
        start <= chars.len(),
    ensures
        start <= end <= chars.len(),
        end - start == first_index(chars@.skip(start as int), sep),
{
    let mut end: usize = start;
    while end < chars.len() && chars[end] != sep
        invariant
            start <= end <= chars.len(),
            forall|j: int| start <= j < end ==> chars@[j] != sep,
        decreases chars.len() - end,
    {
        end = end + 1;
    }
    proof {
        lemma_first_index(chars@.skip(start as int), sep, end - start);
    }
    end
}

/// Reads the address that `chars` holds.
fn read_address(chars: &Vec<char>) -> (address: Option<u32>)
    ensures
        address == address_of(chars@),
{
    let n = chars.len();
    let ghost all = fields(chars@, '.');
    let ghost mut done: Seq<Seq<char>> = Seq::empty();
    let mut parts: Vec<u32> = Vec::new();
    let mut pos: usize = 0;
    assert(chars@.skip(0) =~= chars@);
    while parts.len() < 3
        invariant
            n == chars.len(),
            pos <= n,
            all == fields(chars@, '.'),
            all == done + fields(chars@.skip(pos as int), '.'),
            done.len() == parts.len() <= 3,
            forall|k: int|
                0 <= k < parts.len() ==> numeral_up_to(#[trigger] done[k], 255) == Some(
                    parts@[k] as nat,
                ),
        decreases 3 - parts.len(),
    {
        let ghost rest = chars@.skip(pos as int);
        let end = find_from(chars, pos, '.');
        if end == n {
            assert(all.len() == done.len() + 1);
            return None;
        }
        let ghost field = rest.take(end - pos);
        assert(field =~= chars@.subrange(pos as int, end as int));
        assert(rest.skip(end - pos + 1) =~= chars@.skip(end + 1));
        assert(all =~= done.push(field) + fields(chars@.skip(end + 1), '.'));
        assert(all[done.len() as int] == field);
        match read_numeral(chars, pos, end, 255) {
            None => {
                return None;
            },
            Some(value) => {
                parts.push(value);
            },
        }
        proof {
            done = done.push(field);
        }
        pos = end + 1;
    }
    let ghost rest = chars@.skip(pos as int);
    let end = find_from(chars, pos, '.');
    if end != n {
        proof {
            lemma_fields_nonempty(rest.skip(end - pos + 1), '.');
        }
        return None;
    }
    assert(rest =~= chars@.subrange(pos as int, n as int));
    assert(all =~= done.push(rest));
    match read_numeral(chars, pos, n, 255) {
        None => None,
        Some(last) => {
            let address = (parts[0] << 24) | (parts[1] << 16) | (parts[2] << 8) | last;
            Some(address)
        },
    }
}

/// Reads an address in dotted-quad notation.
///
/// The text must hold four numerals from 0 to 255 with a dot between neighbours, and
/// nothing else. A numeral is an optional `+` and one or more decimal digits.
pub fn parse_address(text: &str) -> (address: Result<u32, ParseError>)
    ensures
        match address {
            Ok(word) => address_of(text@) == Some(word),
            Err(e) => address_of(text@) is None && e@ == ParseErrorView::MalformedAddress(text@),
        },
{
    let chars = chars_of(text);
    match read_address(&chars) {
        Some(word) => Ok(word),
        None => Err(ParseError::MalformedAddress(text.to_owned())),
    }
}

/// Reads a prefix length: a numeral from 0 to 32.
pub fn parse_prefix(text: &str) -> (prefix: Result<u8, ParseError>)
    ensures
        match prefix {
            Ok(n) => prefix_of(text@) == Some(n) && n <= 32,
            Err(e) => prefix_of(text@) is None && e@ == ParseErrorView::MalformedPrefix(text@),
        },
{
    let chars = chars_of(text);
    assert(chars@.subrange(0, chars.len() as int) =~= text@);
    match read_numeral(&chars, 0, chars.len(), 32) {
        Some(n) => Ok(n as u8),
        None => Err(ParseError::MalformedPrefix(text.to_owned())),
    }
}

} // verus!
