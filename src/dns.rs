use vstd::prelude::*;
use vstd::utf8::{decode_utf8, encode_utf8, encode_utf8_decode_utf8, encode_utf8_valid_utf8, valid_utf8};

use crate::pattern::{chars_of, split_on};
use crate::text::{push_char, string_from_chars};

verus! {

/// Length of the fixed DNS header.
pub const DNS_HEADER_LEN: usize = 12;

/// The header of a query: id 0x1234, standard query with recursion desired,
/// one question and no other records.
pub open spec fn query_header() -> Seq<u8> {
    seq![0x12u8, 0x34u8, 0x01u8, 0x00u8, 0u8, 1u8, 0u8, 0u8, 0u8, 0u8, 0u8, 0u8]
}

/// What follows the name in a question: the root label, QTYPE A, QCLASS IN.
pub open spec fn question_tail() -> Seq<u8> {
    seq![0u8, 0u8, 1u8, 0u8, 1u8]
}

/// One label on the wire: its length byte (the byte length, truncated to
/// eight bits) and its UTF-8 bytes.
pub open spec fn wire_label(part: Seq<char>) -> Seq<u8> {
    seq![(encode_utf8(part).len() % 256) as u8] + encode_utf8(part)
}

/// The labels in order.
pub open spec fn wire_labels(parts: Seq<Seq<char>>) -> Seq<u8>
    decreases parts.len(),
{
    if parts.len() == 0 {
        Seq::empty()
    } else {
        wire_label(parts[0]) + wire_labels(parts.drop_first())
    }
}

/// The query packet for `domain`: the header, one label per `.`-separated
/// part, then the root label, type A and class IN.
pub open spec fn query_packet(domain: Seq<char>) -> Seq<u8> {
    query_header() + wire_labels(split_on(domain, '.')) + question_tail()
}

/// The text that lossy UTF-8 decoding gives for bytes that are not valid
/// UTF-8.
pub uninterp spec fn utf8_lossy_invalid(b: Seq<u8>) -> Seq<char>;

/// Lossy UTF-8 decoding: valid input decodes as is.
pub open spec fn lossy_text(b: Seq<u8>) -> Seq<char> {
    if valid_utf8(b) {
        decode_utf8(b)
    } else {
        utf8_lossy_invalid(b)
    }
}

/// Relies on `String::from_utf8_lossy`: valid UTF-8 is decoded unchanged, and
/// the result depends on the bytes alone.
#[verifier::external_body]
pub(crate) fn decode_lossy(b: &[u8]) -> (r: String)
    ensures
        valid_utf8(b@) ==> r@ == decode_utf8(b@),
        !valid_utf8(b@) ==> r@ == utf8_lossy_invalid(b@),
{
    String::from_utf8_lossy(b).into_owned()
}

/// The labels of the name that starts at `off`: each length byte is followed
/// by that many bytes, and a zero length ends the name. A length that runs to
/// or past the end of the packet, or a name that reaches the end of the
/// packet before its zero length, is truncated: there are no labels then.
pub open spec fn labels_from(p: Seq<u8>, off: int) -> Option<Seq<Seq<u8>>>
    decreases p.len() - off,
{
    if off < 0 || off >= p.len() {
        None
    } else {
        let len = p[off] as int;
        if len == 0 {
            Some(Seq::empty())
        } else if off + len >= p.len() {
            None
        } else {
            match labels_from(p, off + len + 1) {
                None => None,
                Some(rest) => Some(seq![p.subrange(off + 1, off + 1 + len)] + rest),
            }
        }
    }
}

/// `acc` followed by the labels read later, if those could be read.
pub open spec fn after_labels(acc: Seq<Seq<u8>>, later: Option<Seq<Seq<u8>>>) -> Option<
    Seq<Seq<u8>>,
> {
    match later {
        None => None,
        Some(rest) => Some(acc + rest),
    }
}

/// The decoded labels joined with `.` (no dot is put before the first
/// non-empty text).
pub open spec fn joined_labels(labels: Seq<Seq<u8>>) -> Seq<char>
    decreases labels.len(),
{
    if labels.len() == 0 {
        Seq::empty()
    } else {
        let prev = joined_labels(labels.drop_last());
        let t = lossy_text(labels.last());
        if prev.len() == 0 {
            t
        } else {
            prev + seq!['.'] + t
        }
    }
}

/// The domain that a DNS packet asks for: none when the packet is shorter
/// than a header, its name is truncated, or the name is empty.
pub open spec fn packet_domain(p: Seq<u8>) -> Option<Seq<char>> {
    if p.len() < 12 {
        None
    } else {
        match labels_from(p, 12) {
            None => None,
            Some(labels) => {
                let d = joined_labels(labels);
                if d.len() == 0 {
                    None
                } else {
                    Some(d)
                }
            },
        }
    }
}

proof fn lemma_wire_labels_push(parts: Seq<Seq<char>>, x: Seq<char>)
    ensures
        wire_labels(parts.push(x)) == wire_labels(parts) + wire_label(x),
    decreases parts.len(),
{
    if parts.len() == 0 {
        assert(parts.push(x).drop_first() =~= Seq::<Seq<char>>::empty());
        assert(parts.push(x)[0] == x);
        assert(wire_labels(parts.push(x).drop_first()) == Seq::<u8>::empty());
        assert(wire_labels(parts.push(x)) =~= wire_label(x) + Seq::<u8>::empty());
        assert(wire_labels(parts) =~= Seq::<u8>::empty());
    } else {
        lemma_wire_labels_push(parts.drop_first(), x);
        assert(parts.push(x).drop_first() =~= parts.drop_first().push(x));
        assert(wire_labels(parts.push(x)) =~= wire_label(parts[0]) + (wire_labels(parts.drop_first())
            + wire_label(x)));
    }
}

fn append_bytes(out: &mut Vec<u8>, b: &Vec<u8>)
    ensures
        final(out)@ == old(out)@ + b@,
{
    let mut i: usize = 0;
    while i < b.len()
        invariant
            i <= b@.len(),
            out@ == old(out)@ + b@.subrange(0, i as int),
        decreases b@.len() - i,
    {
        out.push(b[i]);
        i += 1;
        assert(out@ =~= old(out)@ + b@.subrange(0, i as int));
    }
    assert(b@.subrange(0, b@.len() as int) =~= b@);
}

/// Appends one label for `part`.
fn push_label(out: &mut Vec<u8>, part: &Vec<char>)
    ensures
        final(out)@ == old(out)@ + wire_label(part@),
{
    let s = string_from_chars(part);
    let b = s.as_str().as_bytes_vec();
    out.push((b.len() % 256) as u8);
    append_bytes(out, &b);
    assert(final(out)@ =~= old(out)@ + wire_label(part@));
}

/// The DNS query for an A record of `domain`.
pub fn build_dns_query_packet(domain: &str) -> (r: Vec<u8>)
    ensures
        r@ == query_packet(domain@),
{
    let d = chars_of(domain);
    let n = d.len();
    let mut out: Vec<u8> = Vec::new();
    out.push(0x12u8);
    out.push(0x34u8);
    out.push(0x01u8);
    out.push(0x00u8);
    out.push(0u8);
    out.push(1u8);
    out.push(0u8);
    out.push(0u8);
    out.push(0u8);
    out.push(0u8);
    out.push(0u8);
    out.push(0u8);
    let mut cur: Vec<char> = Vec::new();
    let mut i: usize = 0;
    proof {
        assert(out@ =~= query_header());
        assert(d@.subrange(0, 0) =~= Seq::<char>::empty());
        assert(split_on(Seq::<char>::empty(), '.').drop_last() =~= Seq::<Seq<char>>::empty());
    }
    while i < n
        invariant
            n == d@.len(),
            d@ == domain@,
            i <= n,
            split_on(d@.subrange(0, i as int), '.').len() >= 1,
            split_on(d@.subrange(0, i as int), '.').last() == cur@,
            out@ == query_header() + wire_labels(split_on(d@.subrange(0, i as int), '.').drop_last()),
        decreases n - i,
    {
        let ghost prev = split_on(d@.subrange(0, i as int), '.');
        let ghost s1 = d@.subrange(0, i + 1);
        proof {
            assert(s1.drop_last() =~= d@.subrange(0, i as int));
            assert(s1.last() == d@[i as int]);
        }
        let c = d[i];
        if c == '.' {
            push_label(&mut out, &cur);
            proof {
                let next = split_on(s1, '.');
                assert(next == prev.push(Seq::<char>::empty()));
                assert(next.drop_last() =~= prev);
                assert(prev =~= prev.drop_last().push(cur@));
                lemma_wire_labels_push(prev.drop_last(), cur@);
            }
            cur = Vec::new();
        } else {
            cur.push(c);
            proof {
                let next = split_on(s1, '.');
                assert(next == prev.update(prev.len() - 1, prev.last().push(c)));
                assert(next.drop_last() =~= prev.drop_last());
            }
        }
        i += 1;
    }
    push_label(&mut out, &cur);
    out.push(0u8);
    out.push(0u8);
    out.push(1u8);
    out.push(0u8);
    out.push(1u8);
    proof {
        let sp = split_on(d@, '.');
        assert(d@.subrange(0, n as int) =~= d@);
        assert(sp =~= sp.drop_last().push(cur@));
        lemma_wire_labels_push(sp.drop_last(), cur@);
        assert(out@ =~= query_packet(domain@));
    }
    out
}

fn copy_bytes(p: &[u8], a: usize, b: usize) -> (r: Vec<u8>)
    requires
        a <= b <= p@.len(),
    ensures
        r@ == p@.subrange(a as int, b as int),
{
    let mut r: Vec<u8> = Vec::new();
    let mut i: usize = a;
    while i < b
        invariant
            a <= i <= b <= p@.len(),
            r@ == p@.subrange(a as int, i as int),
        decreases b - i,
    {
        r.push(p[i]);
        i += 1;
    }
    r
}

/// The domain asked for in a DNS query packet, read from the first question;
/// none when the packet is shorter than a header, a label length runs past
/// the end of the packet, the name has no terminating zero length, or the
/// name is empty.
pub fn extract_domain_from_dns_packet(packet: &[u8]) -> (r: Option<String>)
    ensures
        r matches Some(s) ==> packet_domain(packet@) == Some(s@),
        r.is_none() ==> packet_domain(packet@).is_none(),
{
    let n = packet.len();
    if n < DNS_HEADER_LEN {
        return None;
    }
    let mut off: usize = DNS_HEADER_LEN;
    let mut domain = String::new();
    let mut has_text = false;
    let ghost mut acc: Seq<Seq<u8>> = Seq::empty();
    proof {
        assert(acc + Seq::<Seq<u8>>::empty() =~= Seq::<Seq<u8>>::empty());
        assert(labels_from(packet@, 12) == after_labels(acc, labels_from(packet@, 12))) by {
            if let Some(rest) = labels_from(packet@, 12) {
                assert(acc + rest =~= rest);
            }
        }
    }
    loop
        invariant
            n == packet@.len(),
            12 <= off,
            labels_from(packet@, 12) == after_labels(acc, labels_from(packet@, off as int)),
            domain@ == joined_labels(acc),
            has_text == (domain@.len() > 0),
        ensures
            labels_from(packet@, 12) == Some(acc),
            domain@ == joined_labels(acc),
            has_text == (domain@.len() > 0),
        decreases n - off,
    {
        if off >= n {
            return None;
        }
        let len = packet[off] as usize;
        if len == 0 {
            proof {
                assert(acc + Seq::<Seq<u8>>::empty() =~= acc);
            }
            break;
        }
        if len >= n - off {
            return None;
        }
        let label = copy_bytes(packet, off + 1, off + 1 + len);
        let text = decode_lossy(label.as_slice());
        if has_text {
            push_char(&mut domain, '.');
        }
        domain.append(text.as_str());
        has_text = has_text || text.as_str().unicode_len() > 0;
        proof {
            let l = packet@.subrange(off + 1, off + 1 + len);
            let later = labels_from(packet@, off + len + 1);
            if let Some(rest) = later {
                assert(labels_from(packet@, off as int) == Some(seq![l] + rest));
                assert(acc + (seq![l] + rest) =~= acc.push(l) + rest);
            }
            assert(acc.push(l).drop_last() =~= acc);
            acc = acc.push(l);
        }
        off = off + len + 1;
    }
    if !has_text {
        None
    } else {
        Some(domain)
    }
}

/// The pieces joined back with `sep` between them.
pub open spec fn join_with(ls: Seq<Seq<char>>, sep: char) -> Seq<char>
    decreases ls.len(),
{
    if ls.len() == 0 {
        Seq::empty()
    } else if ls.len() == 1 {
        ls[0]
    } else {
        join_with(ls.drop_last(), sep) + seq![sep] + ls.last()
    }
}

proof fn lemma_join_push_char(ls: Seq<Seq<char>>, sep: char, c: char)
    requires
        ls.len() >= 1,
    ensures
        join_with(ls.update(ls.len() - 1, ls.last().push(c)), sep) == join_with(ls, sep).push(c),
{
    let u = ls.update(ls.len() - 1, ls.last().push(c));
    assert(u.drop_last() =~= ls.drop_last());
    if ls.len() == 1 {
    } else {
        assert(join_with(u, sep) =~= join_with(ls, sep).push(c));
    }
}

/// Splitting at a separator and joining back gives the sequence again.
pub proof fn lemma_join_split(d: Seq<char>, sep: char)
    ensures
        join_with(split_on(d, sep), sep) == d,
    decreases d.len(),
{
    if d.len() > 0 {
        let prev = split_on(d.drop_last(), sep);
        lemma_join_split(d.drop_last(), sep);
        crate::pattern::lemma_split_on_nonempty(d.drop_last(), sep);
        if d.last() == sep {
            let next = prev.push(Seq::<char>::empty());
            assert(next.drop_last() =~= prev);
            assert(join_with(next, sep) =~= d);
        } else {
            lemma_join_push_char(prev, sep, d.last());
            assert(d.drop_last().push(d.last()) =~= d);
        }
    }
}

proof fn lemma_encode_nonempty(c: Seq<char>)
    requires
        c.len() > 0,
    ensures
        encode_utf8(c).len() > 0,
{
    encode_utf8_decode_utf8(c);
    if encode_utf8(c).len() == 0 {
        assert(encode_utf8(c) =~= Seq::<u8>::empty());
        assert(decode_utf8(Seq::<u8>::empty()) =~= Seq::<char>::empty());
    }
}

/// Parts that can each be written as one label.
pub open spec fn labelable(parts: Seq<Seq<char>>) -> bool {
    forall|k: int|
        0 <= k < parts.len() ==> (#[trigger] parts[k]).len() > 0 && encode_utf8(parts[k]).len()
            < 256
}

proof fn lemma_labels_of_wire(pre: Seq<u8>, parts: Seq<Seq<char>>, tail: Seq<u8>)
    requires
        labelable(parts),
        tail.len() >= 1,
        tail[0] == 0,
    ensures
        labels_from(pre + wire_labels(parts) + tail, pre.len() as int) == Some(
            parts.map_values(|x: Seq<char>| encode_utf8(x)),
        ),
    decreases parts.len(),
{
    let p = pre + wire_labels(parts) + tail;
    let off = pre.len() as int;
    if parts.len() == 0 {
        assert(p[off] == tail[0]);
        assert(parts.map_values(|x: Seq<char>| encode_utf8(x)) =~= Seq::<Seq<u8>>::empty());
    } else {
        let e = encode_utf8(parts[0]);
        let rest = parts.drop_first();
        lemma_encode_nonempty(parts[0]);
        assert(labelable(rest)) by {
            assert forall|k: int| 0 <= k < rest.len() implies (#[trigger] rest[k]).len() > 0
                && encode_utf8(rest[k]).len() < 256 by {
                assert(rest[k] == parts[k + 1]);
            }
        }
        let pre2 = pre + wire_label(parts[0]);
        assert(p =~= pre2 + wire_labels(rest) + tail);
        lemma_labels_of_wire(pre2, rest, tail);
        let len = e.len() as int;
        assert(p[off] == (len % 256) as u8);
        assert(p[off] as int == len);
        assert(p.subrange(off + 1, off + 1 + len) =~= e);
        assert(pre2.len() == off + len + 1);
        assert(labels_from(p, off) == Some(seq![e] + rest.map_values(|x: Seq<char>| encode_utf8(x))));
        assert(seq![e] + rest.map_values(|x: Seq<char>| encode_utf8(x)) =~= parts.map_values(
            |x: Seq<char>| encode_utf8(x),
        ));
    }
}

proof fn lemma_joined_encoded(parts: Seq<Seq<char>>)
    requires
        labelable(parts),
    ensures
        joined_labels(parts.map_values(|x: Seq<char>| encode_utf8(x))) == join_with(parts, '.'),
        parts.len() > 0 ==> join_with(parts, '.').len() > 0,
    decreases parts.len(),
{
    if parts.len() > 0 {
        let ls = parts.map_values(|x: Seq<char>| encode_utf8(x));
        let init = parts.drop_last();
        assert(labelable(init)) by {
            assert forall|k: int| 0 <= k < init.len() implies (#[trigger] init[k]).len() > 0
                && encode_utf8(init[k]).len() < 256 by {
                assert(init[k] == parts[k]);
            }
        }
        lemma_joined_encoded(init);
        assert(ls.drop_last() =~= init.map_values(|x: Seq<char>| encode_utf8(x)));
        let last = parts[parts.len() - 1];
        assert(ls.last() == encode_utf8(last));
        encode_utf8_valid_utf8(last);
        encode_utf8_decode_utf8(last);
        assert(lossy_text(ls.last()) == last);
        assert(last.len() > 0);
    }
}

/// Reading the domain back from the query built for it gives the domain,
/// whenever each `.`-separated part is non-empty and at most 255 bytes long.
pub proof fn lemma_query_round_trip(domain: Seq<char>)
    requires
        labelable(split_on(domain, '.')),
    ensures
        packet_domain(query_packet(domain)) == Some(domain),
{
    let parts = split_on(domain, '.');
    crate::pattern::lemma_split_on_nonempty(domain, '.');
    lemma_labels_of_wire(query_header(), parts, question_tail());
    lemma_joined_encoded(parts);
    lemma_join_split(domain, '.');
}

} // verus!
