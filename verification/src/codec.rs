//! The stored form of a record.
//!
//! A record is laid out as its identifier and its creation time (eight bytes each,
//! little-endian), its update time (one byte that says whether there is one, then
//! eight bytes if there is), its name and its description (each a four-byte
//! little-endian length and that many bytes of UTF-8), and its mood properties
//! (a four-byte count, then each as a text). Nothing may follow.

use crate::record::{texts, Fragrance, FragrancePayload, FragranceView, PayloadView};
use vstd::bytes::*;
use vstd::prelude::*;
use vstd::slice::*;
use vstd::string::*;
use vstd::utf8::*;

verus! {

/// The largest stored form, in bytes, that the catalog keeps.
pub const MAX_SIZE: usize = 1024;

/// The stored form of an optional time.
pub open spec fn encode_time(time: Option<u64>) -> Seq<u8> {
    match time {
        None => seq![0u8],
        Some(t) => seq![1u8] + spec_u64_to_le_bytes(t),
    }
}

/// The stored form of a text: the length of its UTF-8 encoding, then the encoding.
pub open spec fn encode_text(text: Seq<char>) -> Seq<u8> {
    spec_u32_to_le_bytes(encode_utf8(text).len() as u32) + encode_utf8(text)
}

/// The stored forms of several texts, one after the other.
pub open spec fn encode_texts(texts: Seq<Seq<char>>) -> Seq<u8>
    decreases texts.len(),
{
    if texts.len() == 0 {
        Seq::empty()
    } else {
        encode_text(texts[0]) + encode_texts(texts.drop_first())
    }
}

/// The stored form of a record.
pub open spec fn encode_record(record: FragranceView) -> Seq<u8> {
    spec_u64_to_le_bytes(record.id) + spec_u64_to_le_bytes(record.created_at) + encode_time(
        record.updated_at,
    ) + encode_text(record.name) + encode_text(record.description) + spec_u32_to_le_bytes(
        record.mood_enhancing_properties.len() as u32,
    ) + encode_texts(record.mood_enhancing_properties)
}

/// The eight-byte integer that stands at `at`, and the position after it.
pub open spec fn parse_u64(bytes: Seq<u8>, at: int) -> Option<(u64, int)> {
    if 0 <= at && at + 8 <= bytes.len() {
        Some((spec_u64_from_le_bytes(bytes.subrange(at, at + 8)), at + 8))
    } else {
        None
    }
}

/// The four-byte integer that stands at `at`, and the position after it.
pub open spec fn parse_u32(bytes: Seq<u8>, at: int) -> Option<(u32, int)> {
    if 0 <= at && at + 4 <= bytes.len() {
        Some((spec_u32_from_le_bytes(bytes.subrange(at, at + 4)), at + 4))
    } else {
        None
    }
}

/// The optional time that stands at `at`, and the position after it.
pub open spec fn parse_time(bytes: Seq<u8>, at: int) -> Option<(Option<u64>, int)> {
    if 0 <= at < bytes.len() && bytes[at] == 0 {
        Some((None, at + 1))
    } else if 0 <= at < bytes.len() && bytes[at] == 1 {
        match parse_u64(bytes, at + 1) {
            Some((t, next)) => Some((Some(t), next)),
            None => None,
        }
    } else {
        None
    }
}

/// The text that stands at `at`, and the position after it.
pub open spec fn parse_text(bytes: Seq<u8>, at: int) -> Option<(Seq<char>, int)> {
    match parse_u32(bytes, at) {
        Some((len, body)) => {
            if body + len <= bytes.len() && valid_utf8(bytes.subrange(body, body + len)) {
                Some((decode_utf8(bytes.subrange(body, body + len)), body + len))
            } else {
                None
            }
        },
        None => None,
    }
}

/// The `count` texts that stand at `at`, and the position after them.
pub open spec fn parse_texts(bytes: Seq<u8>, at: int, count: nat) -> Option<(Seq<Seq<char>>, int)>
    decreases count,
{
    if count == 0 {
        Some((Seq::empty(), at))
    } else {
        match parse_text(bytes, at) {
            Some((text, next)) => match parse_texts(bytes, next, (count - 1) as nat) {
                Some((rest, end)) => Some((seq![text] + rest, end)),
                None => None,
            },
            None => None,
        }
    }
}

/// The record that `bytes` is the stored form of, if it is one.
pub open spec fn decode_record(bytes: Seq<u8>) -> Option<FragranceView> {
    let id = parse_u64(bytes, 0);
    let created_at = parse_u64(bytes, id.unwrap().1);
    let updated_at = parse_time(bytes, created_at.unwrap().1);
    let name = parse_text(bytes, updated_at.unwrap().1);
    let description = parse_text(bytes, name.unwrap().1);
    let count = parse_u32(bytes, description.unwrap().1);
    let properties = parse_texts(bytes, count.unwrap().1, count.unwrap().0 as nat);
    if id is Some && created_at is Some && updated_at is Some && name is Some
        && description is Some && count is Some && properties is Some
        && properties.unwrap().1 == bytes.len() {
        Some(
            FragranceView {
                id: id.unwrap().0,
                name: name.unwrap().0,
                description: description.unwrap().0,
                mood_enhancing_properties: properties.unwrap().0,
                created_at: created_at.unwrap().0,
                updated_at: updated_at.unwrap().0,
            },
        )
    } else {
        None
    }
}

impl FragranceView {
    /// The stored form of the record is no longer than [`MAX_SIZE`].
    pub open spec fn fits(self) -> bool {
        encode_record(self).len() <= MAX_SIZE
    }
}

impl PayloadView {
    /// A record newly made from the payload has a stored form no longer than
    /// [`MAX_SIZE`].
    pub open spec fn fits_new(self) -> bool {
        self.created(0, 0).fits()
    }

    /// A record updated with the payload has a stored form no longer than
    /// [`MAX_SIZE`].
    pub open spec fn fits_updated(self) -> bool {
        self.created(0, 0).updated(self, 0).fits()
    }
}

/// Whether a record fits depends on its texts and on whether it has an update
/// time, not on its numbers.
pub(crate) proof fn lemma_fits_by_texts(a: FragranceView, b: FragranceView)
    requires
        a.name == b.name,
        a.description == b.description,
        a.mood_enhancing_properties == b.mood_enhancing_properties,
        a.updated_at is Some == b.updated_at is Some,
    ensures
        a.fits() == b.fits(),
{
    lemma_record_len(a);
    lemma_record_len(b);
}

/// The stored form of a text takes four bytes more than its UTF-8 encoding.
proof fn lemma_text_len(text: Seq<char>)
    ensures
        encode_text(text).len() == 4 + encode_utf8(text).len(),
{
    lemma_auto_spec_u32_to_from_le_bytes();
}

/// Each of several texts takes at least four bytes of their stored form.
proof fn lemma_texts_len(texts: Seq<Seq<char>>)
    ensures
        encode_texts(texts).len() >= 4 * texts.len(),
    decreases texts.len(),
{
    if texts.len() > 0 {
        lemma_text_len(texts[0]);
        lemma_texts_len(texts.drop_first());
    }
}

/// The stored form of a record in terms of the lengths of its parts.
proof fn lemma_record_len(record: FragranceView)
    ensures
        encode_record(record).len() == 20 + encode_time(record.updated_at).len() + encode_text(
            record.name,
        ).len() + encode_text(record.description).len() + encode_texts(
            record.mood_enhancing_properties,
        ).len(),
        encode_time(record.updated_at).len() == if record.updated_at is Some {
            9int
        } else {
            1int
        },
{
    lemma_auto_spec_u32_to_from_le_bytes();
    lemma_auto_spec_u64_to_from_le_bytes();
}

/// Where the stored form of an eight-byte integer stands, that integer is read.
proof fn lemma_parse_u64(bytes: Seq<u8>, at: int, value: u64)
    requires
        0 <= at,
        at + 8 <= bytes.len(),
        bytes.subrange(at, at + 8) == spec_u64_to_le_bytes(value),
    ensures
        parse_u64(bytes, at) == Some((value, at + 8)),
{
    lemma_auto_spec_u64_to_from_le_bytes();
}

/// Where the stored form of a four-byte integer stands, that integer is read.
proof fn lemma_parse_u32(bytes: Seq<u8>, at: int, value: u32)
    requires
        0 <= at,
        at + 4 <= bytes.len(),
        bytes.subrange(at, at + 4) == spec_u32_to_le_bytes(value),
    ensures
        parse_u32(bytes, at) == Some((value, at + 4)),
{
    lemma_auto_spec_u32_to_from_le_bytes();
    assert(spec_u32_to_le_bytes(value).len() == 4);
}

/// Where the stored form of an optional time stands, that time is read.
proof fn lemma_parse_time(bytes: Seq<u8>, at: int, time: Option<u64>)
    requires
        0 <= at,
        at + encode_time(time).len() <= bytes.len(),
        bytes.subrange(at, at + encode_time(time).len()) == encode_time(time),
    ensures
        parse_time(bytes, at) == Some((time, at + encode_time(time).len())),
{
    lemma_auto_spec_u64_to_from_le_bytes();
    let stored = encode_time(time);
    assert(bytes[at] == bytes.subrange(at, at + stored.len())[0]);
    match time {
        None => {},
        Some(t) => {
            assert(bytes.subrange(at + 1, at + 9) =~= stored.subrange(1, 9));
            assert(stored.subrange(1, 9) =~= spec_u64_to_le_bytes(t));
            lemma_parse_u64(bytes, at + 1, t);
        },
    }
}

/// Where the stored form of a text stands, that text is read.
proof fn lemma_parse_text(bytes: Seq<u8>, at: int, text: Seq<char>)
    requires
        0 <= at,
        at + encode_text(text).len() <= bytes.len(),
        bytes.subrange(at, at + encode_text(text).len()) == encode_text(text),
        encode_utf8(text).len() <= u32::MAX,
    ensures
        parse_text(bytes, at) == Some((text, at + encode_text(text).len())),
{
    lemma_auto_spec_u32_to_from_le_bytes();
    let stored = encode_text(text);
    let body = encode_utf8(text);
    assert(bytes.subrange(at, at + 4) =~= stored.subrange(0, 4));
    assert(stored.subrange(0, 4) =~= spec_u32_to_le_bytes(body.len() as u32));
    lemma_parse_u32(bytes, at, body.len() as u32);
    assert(bytes.subrange(at + 4, at + 4 + body.len()) =~= stored.subrange(4, stored.len() as int));
    assert(stored.subrange(4, stored.len() as int) =~= body);
    encode_utf8_valid_utf8(text);
    encode_utf8_decode_utf8(text);
}

/// Where the stored forms of several texts stand, those texts are read.
proof fn lemma_parse_texts(bytes: Seq<u8>, at: int, texts: Seq<Seq<char>>)
    requires
        0 <= at,
        at + encode_texts(texts).len() <= bytes.len(),
        bytes.subrange(at, at + encode_texts(texts).len()) == encode_texts(texts),
        encode_texts(texts).len() <= u32::MAX,
    ensures
        parse_texts(bytes, at, texts.len()) == Some((texts, at + encode_texts(texts).len())),
    decreases texts.len(),
{
    if texts.len() == 0 {
        assert(texts =~= Seq::empty());
    } else {
        let first = encode_text(texts[0]);
        let rest = encode_texts(texts.drop_first());
        let stored = encode_texts(texts);
        lemma_text_len(texts[0]);
        assert(bytes.subrange(at, at + first.len()) =~= stored.subrange(0, first.len() as int));
        assert(stored.subrange(0, first.len() as int) =~= first);
        lemma_parse_text(bytes, at, texts[0]);
        assert(bytes.subrange(at + first.len(), at + first.len() + rest.len())
            =~= stored.subrange(first.len() as int, stored.len() as int));
        assert(stored.subrange(first.len() as int, stored.len() as int) =~= rest);
        lemma_parse_texts(bytes, at + first.len(), texts.drop_first());
        assert(seq![texts[0]] + texts.drop_first() =~= texts);
    }
}

/// Decoding the stored form of a record that fits gives the record back.
pub proof fn lemma_decode_encode(record: FragranceView)
    requires
        record.fits(),
    ensures
        decode_record(encode_record(record)) == Some(record),
{
    lemma_auto_spec_u32_to_from_le_bytes();
    lemma_auto_spec_u64_to_from_le_bytes();
    lemma_record_len(record);
    lemma_text_len(record.name);
    lemma_text_len(record.description);
    lemma_texts_len(record.mood_enhancing_properties);
    let bytes = encode_record(record);
    let id = spec_u64_to_le_bytes(record.id);
    let created_at = spec_u64_to_le_bytes(record.created_at);
    let updated_at = encode_time(record.updated_at);
    let name = encode_text(record.name);
    let description = encode_text(record.description);
    let count = spec_u32_to_le_bytes(record.mood_enhancing_properties.len() as u32);
    let properties = encode_texts(record.mood_enhancing_properties);
    let p1 = 8int;
    let p2 = 16int;
    let p3 = p2 + updated_at.len();
    let p4 = p3 + name.len();
    let p5 = p4 + description.len();
    let p6 = p5 + 4;
    assert(bytes.subrange(0, p1) =~= id);
    assert(bytes.subrange(p1, p2) =~= created_at);
    assert(bytes.subrange(p2, p3) =~= updated_at);
    assert(bytes.subrange(p3, p4) =~= name);
    assert(bytes.subrange(p4, p5) =~= description);
    assert(bytes.subrange(p5, p6) =~= count);
    assert(bytes.subrange(p6, p6 + properties.len()) =~= properties);
    lemma_parse_u64(bytes, 0, record.id);
    lemma_parse_u64(bytes, p1, record.created_at);
    lemma_parse_time(bytes, p2, record.updated_at);
    lemma_parse_text(bytes, p3, record.name);
    lemma_parse_text(bytes, p4, record.description);
    lemma_parse_u32(bytes, p5, record.mood_enhancing_properties.len() as u32);
    lemma_parse_texts(bytes, p6, record.mood_enhancing_properties);
}

/// Where an eight-byte integer is read, its stored form stands.
proof fn lemma_stands_u64(bytes: Seq<u8>, at: int)
    requires
        parse_u64(bytes, at) is Some,
    ensures
        bytes.subrange(at, at + 8) == spec_u64_to_le_bytes(parse_u64(bytes, at).unwrap().0),
        parse_u64(bytes, at).unwrap().1 == at + 8,
{
    lemma_auto_spec_u64_to_from_le_bytes();
    let part = bytes.subrange(at, at + 8);
    assert(spec_u64_to_le_bytes(spec_u64_from_le_bytes(part)) == part);
}

/// Where a four-byte integer is read, its stored form stands.
proof fn lemma_stands_u32(bytes: Seq<u8>, at: int)
    requires
        parse_u32(bytes, at) is Some,
    ensures
        bytes.subrange(at, at + 4) == spec_u32_to_le_bytes(parse_u32(bytes, at).unwrap().0),
        parse_u32(bytes, at).unwrap().1 == at + 4,
{
    lemma_auto_spec_u32_to_from_le_bytes();
    let part = bytes.subrange(at, at + 4);
    assert(spec_u32_to_le_bytes(spec_u32_from_le_bytes(part)) == part);
}

/// Where an optional time is read, its stored form stands.
proof fn lemma_stands_time(bytes: Seq<u8>, at: int)
    requires
        parse_time(bytes, at) is Some,
    ensures
        0 <= at <= parse_time(bytes, at).unwrap().1 <= bytes.len(),
        bytes.subrange(at, parse_time(bytes, at).unwrap().1) == encode_time(
            parse_time(bytes, at).unwrap().0,
        ),
{
    let end = parse_time(bytes, at).unwrap().1;
    if bytes[at] == 0 {
        assert(bytes.subrange(at, end) =~= seq![0u8]);
    } else {
        lemma_stands_u64(bytes, at + 1);
        assert(bytes.subrange(at, end) =~= seq![1u8] + bytes.subrange(at + 1, at + 9));
    }
}

/// Where a text is read, its stored form stands.
proof fn lemma_stands_text(bytes: Seq<u8>, at: int)
    requires
        parse_text(bytes, at) is Some,
    ensures
        0 <= at <= parse_text(bytes, at).unwrap().1 <= bytes.len(),
        bytes.subrange(at, parse_text(bytes, at).unwrap().1) == encode_text(
            parse_text(bytes, at).unwrap().0,
        ),
{
    let end = parse_text(bytes, at).unwrap().1;
    let len = parse_u32(bytes, at).unwrap().0;
    let body = bytes.subrange(at + 4, at + 4 + len);
    lemma_stands_u32(bytes, at);
    decode_utf8_encode_utf8(body);
    assert(bytes.subrange(at, end) =~= bytes.subrange(at, at + 4) + body);
}

/// Where several texts are read, their stored forms stand.
proof fn lemma_stands_texts(bytes: Seq<u8>, at: int, count: nat)
    requires
        0 <= at <= bytes.len(),
        parse_texts(bytes, at, count) is Some,
    ensures
        parse_texts(bytes, at, count).unwrap().0.len() == count,
        at <= parse_texts(bytes, at, count).unwrap().1 <= bytes.len(),
        bytes.subrange(at, parse_texts(bytes, at, count).unwrap().1) == encode_texts(
            parse_texts(bytes, at, count).unwrap().0,
        ),
    decreases count,
{
    let texts = parse_texts(bytes, at, count).unwrap().0;
    let end = parse_texts(bytes, at, count).unwrap().1;
    if count == 0 {
        assert(bytes.subrange(at, end) =~= encode_texts(texts));
    } else {
        let next = parse_text(bytes, at).unwrap().1;
        let rest = parse_texts(bytes, next, (count - 1) as nat).unwrap().0;
        lemma_stands_text(bytes, at);
        lemma_stands_texts(bytes, next, (count - 1) as nat);
        assert(texts.drop_first() =~= rest);
        assert(bytes.subrange(at, end) =~= bytes.subrange(at, next) + bytes.subrange(next, end));
    }
}

/// What decodes to a record is the stored form of that record: no two byte
/// sequences decode to one record.
pub proof fn lemma_encode_decode(bytes: Seq<u8>)
    requires
        decode_record(bytes) is Some,
    ensures
        encode_record(decode_record(bytes).unwrap()) == bytes,
{
    let p1 = parse_u64(bytes, 0).unwrap().1;
    let p2 = parse_u64(bytes, p1).unwrap().1;
    let p3 = parse_time(bytes, p2).unwrap().1;
    let p4 = parse_text(bytes, p3).unwrap().1;
    let p5 = parse_text(bytes, p4).unwrap().1;
    let p6 = parse_u32(bytes, p5).unwrap().1;
    let count = parse_u32(bytes, p5).unwrap().0;
    lemma_stands_u64(bytes, 0);
    lemma_stands_u64(bytes, p1);
    lemma_stands_time(bytes, p2);
    lemma_stands_text(bytes, p3);
    lemma_stands_text(bytes, p4);
    lemma_stands_u32(bytes, p5);
    lemma_stands_texts(bytes, p6, count as nat);
    assert(bytes =~= bytes.subrange(0, p1) + bytes.subrange(p1, p2) + bytes.subrange(p2, p3)
        + bytes.subrange(p3, p4) + bytes.subrange(p4, p5) + bytes.subrange(p5, p6)
        + bytes.subrange(p6, bytes.len() as int));
}

/// `String::from_utf8`, with the error dropped: it accepts exactly the valid UTF-8
/// byte sequences, and the string it returns has `bytes` as its UTF-8 encoding.
#[verifier::external_body]
fn string_from_utf8(bytes: Vec<u8>) -> (text: Option<String>)
    ensures
        text is Some <==> valid_utf8(bytes@),
        text is Some ==> encode_utf8(text.unwrap()@) == bytes@,
{
    String::from_utf8(bytes).ok()
}

/// Appends `bytes` to `buf`.
fn put_bytes(buf: &mut Vec<u8>, bytes: &[u8])
    ensures
        final(buf)@ == old(buf)@ + bytes@,
{
    buf.extend_from_slice(bytes);
    assert(buf@ =~= old(buf)@ + bytes@);
}

/// Appends the stored form of a four-byte integer to `buf`.
fn put_u32(buf: &mut Vec<u8>, value: u32)
    ensures
        final(buf)@ == old(buf)@ + spec_u32_to_le_bytes(value),
{
    let mut bytes = u32_to_le_bytes(value);
    buf.append(&mut bytes);
}

/// Appends the stored form of an eight-byte integer to `buf`.
fn put_u64(buf: &mut Vec<u8>, value: u64)
    ensures
        final(buf)@ == old(buf)@ + spec_u64_to_le_bytes(value),
{
    let mut bytes = u64_to_le_bytes(value);
    buf.append(&mut bytes);
}

/// Appends the stored form of `text` to `buf`.
fn put_text(buf: &mut Vec<u8>, text: &String)
    requires
        encode_utf8(text@).len() <= u32::MAX,
    ensures
        final(buf)@ == old(buf)@ + encode_text(text@),
{
    let bytes = text.as_str().as_bytes();
    put_u32(buf, bytes.len() as u32);
    put_bytes(buf, bytes);
    assert(buf@ =~= old(buf)@ + encode_text(text@));
}

/// Appends the stored forms of `strings` to `buf`.
fn put_texts(buf: &mut Vec<u8>, strings: &Vec<String>)
    requires
        encode_texts(texts(strings@)).len() <= u32::MAX,
    ensures
        final(buf)@ == old(buf)@ + encode_texts(texts(strings@)),
{
    let ghost all = texts(strings@);
    assert(all.skip(0) =~= all);
    let mut i: usize = 0;
    while i < strings.len()
        invariant
            i <= strings.len(),
            all == texts(strings@),
            encode_texts(all.skip(i as int)).len() <= u32::MAX,
            buf@ + encode_texts(all.skip(i as int)) == old(buf)@ + encode_texts(all),
        decreases strings.len() - i,
    {
        proof {
            let rest = all.skip(i as int);
            assert(rest[0] == strings[i as int]@);
            assert(rest.drop_first() =~= all.skip(i + 1));
            lemma_text_len(rest[0]);
        }
        let ghost before = buf@;
        put_text(buf, &strings[i]);
        assert(buf@ + encode_texts(all.skip(i + 1)) =~= before + encode_texts(all.skip(i as int)));
        i += 1;
    }
    assert(all.skip(i as int).len() == 0);
    assert(buf@ =~= old(buf)@ + encode_texts(all));
}

/// The length of the stored form of `text`, if it is at most `budget`.
fn text_len_within(text: &String, budget: usize) -> (len: Option<usize>)
    ensures
        match len {
            Some(n) => n == encode_text(text@).len() && n <= budget,
            None => encode_text(text@).len() > budget,
        },
{
    proof {
        lemma_text_len(text@);
    }
    let n: usize = text.as_str().as_bytes().len();
    if budget < 4 || n > budget - 4 {
        None
    } else {
        Some(n + 4)
    }
}

/// The length of the stored forms of `strings`, if it is at most `budget`.
fn texts_len_within(strings: &Vec<String>, budget: usize) -> (len: Option<usize>)
    ensures
        match len {
            Some(n) => n == encode_texts(texts(strings@)).len() && n <= budget,
            None => encode_texts(texts(strings@)).len() > budget,
        },
{
    let ghost all = texts(strings@);
    assert(all.skip(0) =~= all);
    let mut total: usize = 0;
    let mut i: usize = 0;
    while i < strings.len()
        invariant
            i <= strings.len(),
            all == texts(strings@),
            total <= budget,
            total + encode_texts(all.skip(i as int)).len() == encode_texts(all).len(),
        decreases strings.len() - i,
    {
        proof {
            let rest = all.skip(i as int);
            assert(rest[0] == strings[i as int]@);
            assert(rest.drop_first() =~= all.skip(i + 1));
        }
        match text_len_within(&strings[i], budget - total) {
            Some(n) => {
                total = total + n;
            },
            None => {
                return None;
            },
        }
        i += 1;
    }
    assert(all.skip(i as int).len() == 0);
    Some(total)
}

/// Whether a record of these parts has a stored form of at most [`MAX_SIZE`] bytes.
fn parts_fit(
    name: &String,
    description: &String,
    properties: &Vec<String>,
    updated_at: Option<u64>,
) -> (ok: bool)
    ensures
        ok == (FragranceView {
            id: 0,
            name: name@,
            description: description@,
            mood_enhancing_properties: texts(properties@),
            created_at: 0,
            updated_at,
        }).fits(),
{
    proof {
        lemma_record_len(
            FragranceView {
                id: 0,
                name: name@,
                description: description@,
                mood_enhancing_properties: texts(properties@),
                created_at: 0,
                updated_at,
            },
        );
    }
    let head: usize = if updated_at.is_some() {
        29
    } else {
        21
    };
    let budget: usize = MAX_SIZE - head;
    match text_len_within(name, budget) {
        None => false,
        Some(a) => match text_len_within(description, budget - a) {
            None => false,
            Some(b) => texts_len_within(properties, budget - a - b).is_some(),
        },
    }
}

/// The eight-byte integer that stands at `at`, and the position after it.
fn take_u64(bytes: &[u8], at: usize) -> (found: Option<(u64, usize)>)
    ensures
        match found {
            Some((value, next)) => parse_u64(bytes@, at as int) == Some((value, next as int)),
            None => parse_u64(bytes@, at as int) is None,
        },
{
    if bytes.len() < 8 || at > bytes.len() - 8 {
        return None;
    }
    let value = u64_from_le_bytes(slice_subrange(bytes, at, at + 8));
    Some((value, at + 8))
}

/// The four-byte integer that stands at `at`, and the position after it.
fn take_u32(bytes: &[u8], at: usize) -> (found: Option<(u32, usize)>)
    ensures
        match found {
            Some((value, next)) => parse_u32(bytes@, at as int) == Some((value, next as int)),
            None => parse_u32(bytes@, at as int) is None,
        },
{
    if bytes.len() < 4 || at > bytes.len() - 4 {
        return None;
    }
    let value = u32_from_le_bytes(slice_subrange(bytes, at, at + 4));
    Some((value, at + 4))
}

/// The optional time that stands at `at`, and the position after it.
fn take_time(bytes: &[u8], at: usize) -> (found: Option<(Option<u64>, usize)>)
    ensures
        match found {
            Some((time, next)) => parse_time(bytes@, at as int) == Some((time, next as int)),
            None => parse_time(bytes@, at as int) is None,
        },
{
    if at >= bytes.len() {
        return None;
    }
    let tag: u8 = bytes[at];
    if tag == 0 {
        Some((None, at + 1))
    } else if tag == 1 {
        match take_u64(bytes, at + 1) {
            Some((time, next)) => Some((Some(time), next)),
            None => None,
        }
    } else {
        None
    }
}

/// The text that stands at `at`, and the position after it.
fn take_text(bytes: &[u8], at: usize) -> (found: Option<(String, usize)>)
    ensures
        match found {
            Some((text, next)) => parse_text(bytes@, at as int) == Some((text@, next as int)),
            None => parse_text(bytes@, at as int) is None,
        },
{
    let (len, body): (u32, usize) = match take_u32(bytes, at) {
        Some(found) => found,
        None => {
            return None;
        },
    };
    if len as usize > bytes.len() - body {
        return None;
    }
    let end: usize = body + len as usize;
    match string_from_utf8(slice_to_vec(slice_subrange(bytes, body, end))) {
        Some(text) => {
            proof {
                encode_utf8_decode_utf8(text@);
            }
            Some((text, end))
        },
        None => None,
    }
}

/// The texts `done`, followed by those of `rest` where there are any.
spec fn after(done: Seq<Seq<char>>, rest: Option<(Seq<Seq<char>>, int)>) -> Option<
    (Seq<Seq<char>>, int),
> {
    match rest {
        Some((texts, end)) => Some((done + texts, end)),
        None => None,
    }
}

/// The `count` texts that stand at `at`, and the position after them.
fn take_texts(bytes: &[u8], at: usize, count: u32) -> (found: Option<(Vec<String>, usize)>)
    ensures
        match found {
            Some((strings, next)) => parse_texts(bytes@, at as int, count as nat) == Some(
                (texts(strings@), next as int),
            ),
            None => parse_texts(bytes@, at as int, count as nat) is None,
        },
{
    let mut strings: Vec<String> = Vec::new();
    let mut next: usize = at;
    let mut i: u32 = 0;
    assert(Seq::<Seq<char>>::empty() + parse_texts(bytes@, at as int, count as nat).unwrap().0
        =~= parse_texts(bytes@, at as int, count as nat).unwrap().0);
    while i < count
        invariant
            i <= count,
            parse_texts(bytes@, at as int, count as nat) == after(
                texts(strings@),
                parse_texts(bytes@, next as int, (count - i) as nat),
            ),
        decreases count - i,
    {
        let ghost done = texts(strings@);
        let ghost here = next as int;
        match take_text(bytes, next) {
            Some((text, end)) => {
                proof {
                    let tail = parse_texts(bytes@, end as int, (count - i - 1) as nat);
                    if tail is Some {
                        assert(done + (seq![text@] + tail.unwrap().0) =~= done.push(text@)
                            + tail.unwrap().0);
                    }
                    assert(texts(strings@.push(text)) =~= done.push(text@));
                }
                strings.push(text);
                next = end;
            },
            None => {
                return None;
            },
        }
        i += 1;
    }
    assert(texts(strings@) + Seq::<Seq<char>>::empty() =~= texts(strings@));
    Some((strings, next))
}

impl Fragrance {
    /// Whether the stored form of the record is no longer than [`MAX_SIZE`].
    pub fn fits(&self) -> (ok: bool)
        ensures
            ok == self@.fits(),
    {
        proof {
            lemma_record_len(self@);
            lemma_record_len(
                FragranceView {
                    id: 0,
                    name: self.name@,
                    description: self.description@,
                    mood_enhancing_properties: texts(self.mood_enhancing_properties@),
                    created_at: 0,
                    updated_at: self.updated_at,
                },
            );
        }
        parts_fit(&self.name, &self.description, &self.mood_enhancing_properties, self.updated_at)
    }

    /// The stored form of the record.
    pub fn to_bytes(&self) -> (bytes: Vec<u8>)
        requires
            self@.fits(),
        ensures
            bytes@ == encode_record(self@),
            bytes.len() <= MAX_SIZE,
    {
        proof {
            lemma_record_len(self@);
            lemma_text_len(self.name@);
            lemma_text_len(self.description@);
            lemma_texts_len(self@.mood_enhancing_properties);
        }
        let mut bytes: Vec<u8> = Vec::new();
        put_u64(&mut bytes, self.id);
        put_u64(&mut bytes, self.created_at);
        match self.updated_at {
            None => {
                bytes.push(0u8);
            },
            Some(t) => {
                bytes.push(1u8);
                put_u64(&mut bytes, t);
            },
        }
        assert(bytes@ =~= spec_u64_to_le_bytes(self.id) + spec_u64_to_le_bytes(self.created_at)
            + encode_time(self.updated_at));
        put_text(&mut bytes, &self.name);
        put_text(&mut bytes, &self.description);
        put_u32(&mut bytes, self.mood_enhancing_properties.len() as u32);
        put_texts(&mut bytes, &self.mood_enhancing_properties);
        bytes
    }

    /// The record that `bytes` is the stored form of, if it is one.
    pub fn from_bytes(bytes: &[u8]) -> (record: Option<Fragrance>)
        ensures
            match record {
                Some(r) => decode_record(bytes@) == Some(r@),
                None => decode_record(bytes@) is None,
            },
    {
        let (id, at): (u64, usize) = match take_u64(bytes, 0) {
            Some(found) => found,
            None => {
                return None;
            },
        };
        let (created_at, at): (u64, usize) = match take_u64(bytes, at) {
            Some(found) => found,
            None => {
                return None;
            },
        };
        let (updated_at, at): (Option<u64>, usize) = match take_time(bytes, at) {
            Some(found) => found,
            None => {
                return None;
            },
        };
        let (name, at): (String, usize) = match take_text(bytes, at) {
            Some(found) => found,
            None => {
                return None;
            },
        };
        let (description, at): (String, usize) = match take_text(bytes, at) {
            Some(found) => found,
            None => {
                return None;
            },
        };
        let (count, at): (u32, usize) = match take_u32(bytes, at) {
            Some(found) => found,
            None => {
                return None;
            },
        };
        let (mood_enhancing_properties, at): (Vec<String>, usize) = match take_texts(
            bytes,
            at,
            count,
        ) {
            Some(found) => found,
            None => {
                return None;
            },
        };
        if at != bytes.len() {
            return None;
        }
        Some(Fragrance { id, name, description, mood_enhancing_properties, created_at, updated_at })
    }
}

impl FragrancePayload {
    /// Whether a record newly made from the payload has a stored form no longer
    /// than [`MAX_SIZE`].
    pub fn fits_new(&self) -> (ok: bool)
        ensures
            ok == self@.fits_new(),
    {
        parts_fit(&self.name, &self.description, &self.mood_enhancing_properties, None)
    }

    /// Whether a record updated with the payload has a stored form no longer than
    /// [`MAX_SIZE`].
    pub fn fits_updated(&self) -> (ok: bool)
        ensures
            ok == self@.fits_updated(),
    {
        parts_fit(&self.name, &self.description, &self.mood_enhancing_properties, Some(0))
    }
}

} // verus!
