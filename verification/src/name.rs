use vstd::prelude::*;
use vstd::slice::slice_subrange;
use vstd::string::StringSliceAdditionalSpecFns;
use vstd::utf8::decode_utf8;
use vstd::utf8::encode_utf8;
use vstd::utf8::encode_utf8_decode_utf8;
use vstd::utf8::encode_utf8_valid_utf8;
use vstd::utf8::valid_utf8;

use crate::errors::DnsError;

verus! {

// ---------------------------------------------------------------------------
// Dotted names
//
// A domain name is handled as the byte sequence of its dotted form
// ("www.example.com"). Its labels are the maximal runs of bytes between
// `.` separators (byte 0x2e). The wire form prefixes each label with its
// length and ends with a zero byte.
// ---------------------------------------------------------------------------
/// The offset of the first `.` at or after `i`, or the end of the name.
pub open spec fn first_label_end(name: Seq<u8>, i: int) -> int
    decreases name.len() - i,
{
    if i < 0 || i >= name.len() {
        name.len() as int
    } else if name[i] == 0x2e {
        i
    } else {
        first_label_end(name, i + 1)
    }
}

pub proof fn lemma_first_label_end(name: Seq<u8>, i: int)
    requires
        0 <= i <= name.len(),
    ensures
        i <= first_label_end(name, i) <= name.len(),
        forall|j: int| i <= j < first_label_end(name, i) ==> name[j] != 0x2e,
        first_label_end(name, i) < name.len() ==> name[first_label_end(name, i)] == 0x2e,
    decreases name.len() - i,
{
    if i < name.len() && name[i] != 0x2e {
        lemma_first_label_end(name, i + 1);
    }
}

/// Every label of `name`, from the label that starts at `i` on, fits in a
/// one-byte length prefix.
pub open spec fn spec_encodable_from(name: Seq<u8>, i: int) -> bool
    decreases name.len() - i,
{
    if i < 0 || i > name.len() {
        true
    } else {
        let e = first_label_end(name, i);
        proof {
            lemma_first_label_end(name, i);
        }
        e - i <= 255 && (e >= name.len() || spec_encodable_from(name, e + 1))
    }
}

/// Every label of `name` fits in a one-byte length prefix.
pub open spec fn spec_name_encodable(name: Seq<u8>) -> bool {
    spec_encodable_from(name, 0)
}

/// The wire form of `name` from the label that starts at `i` on: each label
/// preceded by its length, the whole ended by a zero byte.
pub open spec fn spec_encode_from(name: Seq<u8>, i: int) -> Seq<u8>
    decreases name.len() - i,
{
    if i < 0 || i > name.len() {
        seq![]
    } else {
        let e = first_label_end(name, i);
        proof {
            lemma_first_label_end(name, i);
        }
        seq![(e - i) as u8] + name.subrange(i, e) + (if e >= name.len() {
            seq![0u8]
        } else {
            spec_encode_from(name, e + 1)
        })
    }
}

/// The wire form of the whole dotted name `name`.
pub open spec fn spec_encode_name(name: Seq<u8>) -> Seq<u8> {
    spec_encode_from(name, 0)
}

/// The labels of `name` from the label that starts at `i` on.
pub open spec fn spec_labels_of(name: Seq<u8>, i: int) -> Seq<Seq<u8>>
    decreases name.len() - i,
{
    if i < 0 || i > name.len() {
        seq![]
    } else {
        let e = first_label_end(name, i);
        proof {
            lemma_first_label_end(name, i);
        }
        seq![name.subrange(i, e)] + (if e >= name.len() {
            seq![]
        } else {
            spec_labels_of(name, e + 1)
        })
    }
}

/// The dotted form of a label list.
pub open spec fn spec_join(labels: Seq<Seq<u8>>) -> Seq<u8>
    decreases labels.len(),
{
    if labels.len() == 0 {
        seq![]
    } else if labels.len() == 1 {
        labels[0]
    } else {
        labels[0] + seq![0x2eu8] + spec_join(labels.drop_first())
    }
}

// ---------------------------------------------------------------------------
// Wire-format decoding
//
// `spec_labels_from(data, start, pos)` reads length-prefixed labels at `pos`.
// A length byte with either of its two high bits set is the first byte of a
// compression pointer; its low six bits and the next byte form the target
// offset. A pointer must target an offset strictly before `start`, the
// offset where the name being decoded began: that check rejects every
// self, forward or cyclic pointer chain and bounds the recursion.
// ---------------------------------------------------------------------------
/// The label list found at `pos`, together with the offset just past the
/// name's bytes at `pos` (past its terminator or its pointer).
pub open spec fn spec_labels_from(data: Seq<u8>, start: int, pos: int) -> Result<
    (Seq<Seq<u8>>, int),
    DnsError,
>
    decreases start, data.len() - pos,
{
    if start < 0 || pos < 0 || pos >= data.len() {
        Err(DnsError::Truncated)
    } else {
        let len = data[pos];
        if len == 0 {
            Ok((seq![], pos + 1))
        } else if len >= 0x40 {
            if pos + 1 >= data.len() {
                Err(DnsError::Truncated)
            } else {
                let target = (len as int % 64) * 256 + data[pos + 1] as int;
                if target >= start {
                    Err(DnsError::MalformedCompression)
                } else {
                    match spec_labels_from(data, target, target) {
                        Ok((labels, _)) => Ok((labels, pos + 2)),
                        Err(e) => Err(e),
                    }
                }
            }
        } else {
            if pos + 1 + len as int > data.len() {
                Err(DnsError::Truncated)
            } else {
                match spec_labels_from(data, start, pos + 1 + len as int) {
                    Ok((labels, end)) => Ok(
                        (seq![data.subrange(pos + 1, pos + 1 + len as int)] + labels, end),
                    ),
                    Err(e) => Err(e),
                }
            }
        }
    }
}

/// The dotted name found at `cursor`, together with the number of bytes the
/// name occupies at `cursor` (up to and including its terminator or its
/// pointer, never the bytes behind a pointer's target).
pub open spec fn spec_decode_name(data: Seq<u8>, cursor: int) -> Result<(Seq<u8>, int), DnsError> {
    match spec_labels_from(data, cursor, cursor) {
        Ok((labels, end)) => Ok((spec_join(labels), end - cursor)),
        Err(e) => Err(e),
    }
}

/// What `decode_name` returns for the buffer `data` and offset `cursor`:
/// the byte-level decoding, turned into a string when its bytes are valid
/// UTF-8 and into `InvalidLabel` when they are not.
pub open spec fn decode_outcome_matches(
    data: Seq<u8>,
    cursor: int,
    r: Result<(String, usize), DnsError>,
) -> bool {
    match spec_decode_name(data, cursor) {
        Err(e) => r == Err::<(String, usize), DnsError>(e),
        Ok((nb, consumed)) => if valid_utf8(nb) {
            &&& r matches Ok(p)
            &&& p.0@ == decode_utf8(nb)
            &&& p.1 == consumed
        } else {
            r == Err::<(String, usize), DnsError>(DnsError::InvalidLabel)
        },
    }
}

// ---------------------------------------------------------------------------
// Facts about decoding
// ---------------------------------------------------------------------------
/// A successful label scan moves forward, stays inside the buffer, and
/// yields labels of 1 to 63 bytes each.
pub proof fn lemma_labels_from_bounds(data: Seq<u8>, start: int, pos: int)
    ensures
        spec_labels_from(data, start, pos) matches Ok(p) ==> {
            &&& pos < p.1 <= data.len()
            &&& forall|k: int| 0 <= k < p.0.len() ==> 1 <= (#[trigger] p.0[k]).len() <= 63
        },
    decreases start, data.len() - pos,
{
    if start < 0 || pos < 0 || pos >= data.len() {
    } else {
        let len = data[pos];
        if len == 0 {
        } else if len >= 0x40 {
            if pos + 1 < data.len() {
                let target = (len as int % 64) * 256 + data[pos + 1] as int;
                if target < start {
                    lemma_labels_from_bounds(data, target, target);
                }
            }
        } else {
            if pos + 1 + len as int <= data.len() {
                lemma_labels_from_bounds(data, start, pos + 1 + len as int);
            }
        }
    }
}

// ---------------------------------------------------------------------------
// Facts about joining labels
// ---------------------------------------------------------------------------
pub proof fn lemma_join_push(labels: Seq<Seq<u8>>, l: Seq<u8>)
    ensures
        spec_join(labels.push(l)) == if labels.len() == 0 {
            l
        } else {
            spec_join(labels) + seq![0x2eu8] + l
        },
    decreases labels.len(),
{
    if labels.len() == 0 {
        assert(labels.push(l) =~= seq![l]);
    } else {
        lemma_join_push(labels.drop_first(), l);
        assert(labels.push(l).drop_first() =~= labels.drop_first().push(l));
        if labels.len() == 1 {
            assert(spec_join(labels.push(l)) == labels[0] + seq![0x2eu8] + l);
        } else {
            assert(spec_join(labels.push(l)) == labels[0] + seq![0x2eu8] + (spec_join(
                labels.drop_first(),
            ) + seq![0x2eu8] + l));
            assert(labels[0] + seq![0x2eu8] + (spec_join(labels.drop_first()) + seq![0x2eu8] + l)
                =~= (labels[0] + seq![0x2eu8] + spec_join(labels.drop_first())) + seq![0x2eu8] + l);
        }
    }
}

#[verifier::rlimit(50)]
pub proof fn lemma_join_concat(a: Seq<Seq<u8>>, b: Seq<Seq<u8>>)
    ensures
        spec_join(a + b) == if a.len() == 0 {
            spec_join(b)
        } else if b.len() == 0 {
            spec_join(a)
        } else {
            spec_join(a) + seq![0x2eu8] + spec_join(b)
        },
    decreases a.len(),
{
    if a.len() == 0 {
        assert(a + b =~= b);
    } else if b.len() == 0 {
        assert(a + b =~= a);
    } else {
        lemma_join_concat(a.drop_first(), b);
        assert((a + b).drop_first() =~= a.drop_first() + b);
        assert((a + b)[0] == a[0]);
        if a.len() == 1 {
            assert(spec_join(a + b) == a[0] + seq![0x2eu8] + spec_join(b));
            assert(spec_join(a) == a[0]);
        } else {
            assert(spec_join(a + b) == a[0] + seq![0x2eu8] + (spec_join(a.drop_first())
                + seq![0x2eu8] + spec_join(b)));
            assert(a[0] + seq![0x2eu8] + (spec_join(a.drop_first()) + seq![0x2eu8] + spec_join(b))
                =~= (a[0] + seq![0x2eu8] + spec_join(a.drop_first())) + seq![0x2eu8] + spec_join(
                b,
            ));
        }
    }
}

/// With no empty label in the list, the dotted form is empty exactly when
/// the list is.
pub proof fn lemma_join_empty_iff(labels: Seq<Seq<u8>>)
    requires
        forall|k: int| 0 <= k < labels.len() ==> (#[trigger] labels[k]).len() > 0,
    ensures
        spec_join(labels).len() == 0 <==> labels.len() == 0,
    decreases labels.len(),
{
    if labels.len() > 1 {
        lemma_join_empty_iff(labels.drop_first());
    }
}

// ---------------------------------------------------------------------------
// Facts about encoding
// ---------------------------------------------------------------------------
/// The wire form of the tail of a name starting at `i` occupies exactly the
/// tail's length plus two bytes.
pub proof fn lemma_encode_from_len(name: Seq<u8>, i: int)
    requires
        0 <= i <= name.len(),
    ensures
        spec_encode_from(name, i).len() == name.len() - i + 2,
    decreases name.len() - i,
{
    lemma_first_label_end(name, i);
    let e = first_label_end(name, i);
    if e < name.len() {
        lemma_encode_from_len(name, e + 1);
    }
}

/// Joining the labels of the tail of a name gives back that tail.
pub proof fn lemma_join_labels_of(name: Seq<u8>, i: int)
    requires
        0 <= i <= name.len(),
    ensures
        spec_join(spec_labels_of(name, i)) == name.subrange(i, name.len() as int),
    decreases name.len() - i,
{
    lemma_first_label_end(name, i);
    let e = first_label_end(name, i);
    if e >= name.len() {
        assert(spec_labels_of(name, i) =~= seq![name.subrange(i, e)]);
    } else {
        lemma_join_labels_of(name, e + 1);
        let rest = spec_labels_of(name, e + 1);
        assert(rest.len() > 0);
        assert(seq![name.subrange(i, e)] + rest == spec_labels_of(name, i));
        lemma_join_concat(seq![name.subrange(i, e)], rest);
        assert(spec_join(seq![name.subrange(i, e)]) == name.subrange(i, e));
        assert(name.subrange(i, e) + seq![0x2eu8] + name.subrange(e + 1, name.len() as int)
            =~= name.subrange(i, name.len() as int));
    }
}

/// Decoding a plain (pointer-free) encoding that sits at `pos` inside a
/// larger buffer yields exactly the encoded labels, whatever `start` is.
proof fn lemma_decode_encoded_labels(name: Seq<u8>, i: int, data: Seq<u8>, start: int, pos: int)
    requires
        0 <= i <= name.len(),
        forall|k: int|
            0 <= k < spec_labels_of(name, i).len() ==> 1 <= (#[trigger] spec_labels_of(name, i)[k]).len()
                <= 63,
        0 <= start,
        0 <= pos,
        pos + spec_encode_from(name, i).len() <= data.len(),
        data.subrange(pos, pos + spec_encode_from(name, i).len() as int) == spec_encode_from(
            name,
            i,
        ),
    ensures
        spec_labels_from(data, start, pos) == Ok::<_, DnsError>(
            (spec_labels_of(name, i), pos + spec_encode_from(name, i).len()),
        ),
    decreases name.len() - i,
{
    lemma_first_label_end(name, i);
    lemma_encode_from_len(name, i);
    let e = first_label_end(name, i);
    let w = spec_encode_from(name, i);
    let labels = spec_labels_of(name, i);
    let label = name.subrange(i, e);
    assert(labels[0] == label);
    assert(1 <= label.len() <= 63);
    assert(w[0] == (e - i) as u8);
    assert(data[pos] == (e - i) as u8);
    let len = data[pos];
    assert(len as int == e - i);
    assert(1 <= len < 0x40);
    assert(pos + 1 + len as int <= data.len());
    assert(data.subrange(pos + 1, pos + 1 + len as int) =~= label) by {
        assert forall|j: int| 0 <= j < len as int implies data[pos + 1 + j] == label[j] by {
            assert(data[pos + 1 + j] == w[1 + j]);
            assert(w[1 + j] == label[j]);
        }
    }
    if e >= name.len() {
        assert(labels =~= seq![label]);
        assert(w == seq![(e - i) as u8] + label + seq![0u8]);
        assert(data[pos + 1 + len as int] == w[1 + len as int]);
        assert(w[1 + len as int] == 0u8);
        assert(spec_labels_from(data, start, pos + 1 + len as int) == Ok::<_, DnsError>(
            (Seq::<Seq<u8>>::empty(), pos + 2 + len as int),
        ));
        assert(seq![label] + Seq::<Seq<u8>>::empty() =~= labels);
        assert(pos + 2 + len as int == pos + w.len());
    } else {
        let wrest = spec_encode_from(name, e + 1);
        lemma_encode_from_len(name, e + 1);
        assert(w == seq![(e - i) as u8] + label + wrest);
        let pos2 = pos + 1 + len as int;
        assert(data.subrange(pos2, pos2 + wrest.len() as int) =~= wrest) by {
            assert forall|j: int| 0 <= j < wrest.len() implies data[pos2 + j] == wrest[j] by {
                assert(data[pos2 + j] == w[1 + len as int + j]);
                assert(w[1 + len as int + j] == wrest[j]);
            }
        }
        assert(spec_labels_of(name, e + 1) =~= labels.drop_first());
        assert(forall|k: int|
            0 <= k < spec_labels_of(name, e + 1).len() ==> 1 <= (#[trigger] spec_labels_of(
                name,
                e + 1,
            )[k]).len() <= 63) by {
            assert(forall|k: int|
                0 <= k < labels.drop_first().len() ==> labels.drop_first()[k] == labels[k + 1]);
        }
        lemma_decode_encoded_labels(name, e + 1, data, start, pos2);
        assert(seq![label] + spec_labels_of(name, e + 1) =~= labels);
        assert(pos2 + wrest.len() == pos + w.len());
    }
}

// ---------------------------------------------------------------------------
// Laws
// ---------------------------------------------------------------------------
/// Round trip: a dotted name all of whose labels have 1 to 63 bytes decodes,
/// from its own encoding, back to itself, and the decoder consumes the whole
/// encoding (the name's length plus one length byte and one terminator).
pub proof fn lemma_name_round_trip(name: Seq<u8>)
    requires
        forall|k: int|
            0 <= k < spec_labels_of(name, 0).len() ==> 1 <= (#[trigger] spec_labels_of(name, 0)[k]).len()
                <= 63,
    ensures
        spec_decode_name(spec_encode_name(name), 0) == Ok::<_, DnsError>(
            (name, name.len() + 2 as int),
        ),
{
    let w = spec_encode_name(name);
    lemma_encode_from_len(name, 0);
    assert(w.subrange(0, w.len() as int) =~= w);
    lemma_decode_encoded_labels(name, 0, w, 0, 0);
    lemma_join_labels_of(name, 0);
    assert(name.subrange(0, name.len() as int) =~= name);
}

// ---------------------------------------------------------------------------
// Decoded names can always be re-encoded
// ---------------------------------------------------------------------------
proof fn lemma_first_label_end_le_dot(name: Seq<u8>, i: int, d: int)
    requires
        0 <= i <= d < name.len(),
        name[d] == 0x2e,
    ensures
        first_label_end(name, i) <= d,
    decreases d - i,
{
    if i < d && name[i] != 0x2e {
        lemma_first_label_end_le_dot(name, i + 1, d);
    }
}

proof fn lemma_first_label_end_shift(x: Seq<u8>, y: Seq<u8>, j: int)
    requires
        0 <= j <= y.len(),
    ensures
        first_label_end(x + y, x.len() + j) == x.len() + first_label_end(y, j),
    decreases y.len() - j,
{
    if j < y.len() && y[j] != 0x2e {
        lemma_first_label_end_shift(x, y, j + 1);
    }
}

/// From every offset of the name, the next dot, or the end, lies within
/// `m` bytes.
pub open spec fn dot_dist_bounded(name: Seq<u8>, m: int) -> bool {
    forall|i: int| 0 <= i <= name.len() ==> first_label_end(name, i) - i <= m
}

proof fn lemma_join_dot_dist(ls: Seq<Seq<u8>>, m: int)
    requires
        ls.len() > 0,
        0 <= m,
        forall|k: int| 0 <= k < ls.len() ==> (#[trigger] ls[k]).len() <= m,
    ensures
        dot_dist_bounded(spec_join(ls), m),
    decreases ls.len(),
{
    let name = spec_join(ls);
    if ls.len() == 1 {
        assert forall|i: int| 0 <= i <= name.len() implies first_label_end(name, i) - i <= m by {
            lemma_first_label_end(name, i);
        }
    } else {
        lemma_join_dot_dist(ls.drop_first(), m);
        let head = ls[0] + seq![0x2eu8];
        let y = spec_join(ls.drop_first());
        assert(name =~= head + y);
        let d0 = ls[0].len() as int;
        assert(name[d0] == 0x2e);
        assert forall|i: int| 0 <= i <= name.len() implies first_label_end(name, i) - i <= m by {
            if i <= d0 {
                lemma_first_label_end_le_dot(name, i, d0);
                lemma_first_label_end(name, i);
            } else {
                lemma_first_label_end_shift(head, y, i - d0 - 1);
            }
        }
    }
}

proof fn lemma_dot_dist_encodable(name: Seq<u8>, i: int)
    requires
        0 <= i <= name.len(),
        dot_dist_bounded(name, 255),
    ensures
        spec_encodable_from(name, i),
    decreases name.len() - i,
{
    lemma_first_label_end(name, i);
    let e = first_label_end(name, i);
    if e < name.len() {
        lemma_dot_dist_encodable(name, e + 1);
    }
}

/// Every dotted name the decoder can produce has labels short enough for
/// the encoder to take it back.
pub proof fn lemma_decoded_name_encodable(data: Seq<u8>, cursor: int)
    ensures
        spec_decode_name(data, cursor) matches Ok(p) ==> spec_name_encodable(p.0),
{
    match spec_labels_from(data, cursor, cursor) {
        Ok((ls, end)) => {
            lemma_labels_from_bounds(data, cursor, cursor);
            if ls.len() > 0 {
                lemma_join_dot_dist(ls, 63);
                lemma_dot_dist_encodable(spec_join(ls), 0);
            }
        },
        Err(_) => {},
    }
}

// ---------------------------------------------------------------------------
// Executable codec
// ---------------------------------------------------------------------------
/// Relies on `String::from_utf8`: it returns `Ok` exactly when the bytes are
/// valid UTF-8, and the returned string owns exactly those bytes.
#[verifier::external_body]
fn string_from_utf8(v: Vec<u8>) -> (r: Option<String>)
    ensures
        r is Some <==> valid_utf8(v@),
        r matches Some(s) ==> s@ == decode_utf8(v@),
{
    String::from_utf8(v).ok()
}

/// True when every label of the dotted name fits in a one-byte length
/// prefix, so that `encode_dns_name` accepts it.
pub fn name_is_encodable(domain_name: &str) -> (b: bool)
    ensures
        b == spec_name_encodable(domain_name.spec_bytes()),
{
    let bytes = domain_name.as_bytes();
    let n = bytes.len();
    let mut i: usize = 0;
    loop
        invariant
            0 <= i <= n,
            n == bytes@.len(),
            bytes@ == domain_name.spec_bytes(),
            spec_name_encodable(bytes@) == spec_encodable_from(bytes@, i as int),
        decreases n - i,
    {
        let mut e = i;
        while e < n && bytes[e] != 0x2e
            invariant
                i <= e <= n,
                n == bytes@.len(),
                first_label_end(bytes@, i as int) == first_label_end(bytes@, e as int),
            decreases n - e,
        {
            e = e + 1;
        }
        proof {
            lemma_first_label_end(bytes@, e as int);
            assert(first_label_end(bytes@, i as int) == e);
        }
        if e - i > 255 {
            return false;
        }
        if e == n {
            return true;
        }
        i = e + 1;
    }
}

/// Encodes a dotted name into its wire form: each label preceded by its
/// length, the whole ended by a zero byte. No compression is ever produced.
pub fn encode_dns_name(domain_name: &str) -> (r: Vec<u8>)
    requires
        spec_name_encodable(domain_name.spec_bytes()),
    ensures
        r@ == spec_encode_name(domain_name.spec_bytes()),
{
    let bytes = domain_name.as_bytes();
    let n = bytes.len();
    let mut out: Vec<u8> = Vec::new();
    let mut i: usize = 0;
    loop
        invariant
            0 <= i <= n,
            n == bytes@.len(),
            bytes@ == domain_name.spec_bytes(),
            spec_encodable_from(bytes@, i as int),
            out@ + spec_encode_from(bytes@, i as int) == spec_encode_name(bytes@),
        decreases n - i,
    {
        let mut e = i;
        while e < n && bytes[e] != 0x2e
            invariant
                i <= e <= n,
                n == bytes@.len(),
                first_label_end(bytes@, i as int) == first_label_end(bytes@, e as int),
            decreases n - e,
        {
            e = e + 1;
        }
        proof {
            lemma_first_label_end(bytes@, e as int);
            assert(first_label_end(bytes@, i as int) == e);
        }
        out.push((e - i) as u8);
        let label = slice_subrange(bytes, i, e);
        out.extend_from_slice(label);
        if e == n {
            out.push(0);
            proof {
                assert(out@ =~= spec_encode_name(bytes@));
            }
            return out;
        }
        proof {
            assert(out@ + spec_encode_from(bytes@, e + 1 as int) =~= spec_encode_name(bytes@));
        }
        i = e + 1;
    }
}

/// What the byte-level decoder returns: exactly the result of
/// `spec_decode_name`.
pub open spec fn decode_bytes_outcome_matches(
    data: Seq<u8>,
    cursor: int,
    r: Result<(Vec<u8>, usize), DnsError>,
) -> bool {
    match spec_decode_name(data, cursor) {
        Err(e) => r == Err::<(Vec<u8>, usize), DnsError>(e),
        Ok((nb, consumed)) => {
            &&& r matches Ok(p)
            &&& p.0@ == nb
            &&& p.1 == consumed
        },
    }
}

/// The byte-level decoder behind `decode_name`: same traversal, but the
/// dotted name is kept as bytes and never checked for UTF-8 validity.
fn decode_name_bytes(data: &[u8], cursor: usize) -> (r: Result<(Vec<u8>, usize), DnsError>)
    ensures
        decode_bytes_outcome_matches(data@, cursor as int, r),
        r matches Ok(p) ==> 1 <= p.1 && cursor + p.1 <= data@.len(),
    decreases cursor,
{
    let ghost gcur = cursor as int;
    let n = data.len();
    let mut name_bytes: Vec<u8> = Vec::new();
    let ghost mut done: Seq<Seq<u8>> = Seq::empty();
    let mut current_pos: usize = cursor;
    proof {
        match spec_labels_from(data@, gcur, gcur) {
            Ok(p) => {
                assert(Seq::<Seq<u8>>::empty() + p.0 =~= p.0);
            },
            Err(_) => {},
        }
    }
    loop
        invariant
            gcur == cursor as int,
            cursor <= current_pos,
            n == data@.len(),
            name_bytes@ == spec_join(done),
            forall|k: int| 0 <= k < done.len() ==> 1 <= (#[trigger] done[k]).len() <= 63,
            (match spec_labels_from(data@, gcur, current_pos as int) {
                Ok(p) => spec_labels_from(data@, gcur, gcur) == Ok::<_, DnsError>(
                    (done + p.0, p.1),
                ),
                Err(e) => spec_labels_from(data@, gcur, gcur) == Err::<(Seq<Seq<u8>>, int), DnsError>(
                    e,
                ),
            }),
        decreases n - current_pos,
    {
        proof {
            lemma_join_empty_iff(done);
        }
        if current_pos >= n {
            return Err(DnsError::Truncated);
        }
        let length = data[current_pos];
        if length == 0 {
            let consumed = current_pos + 1 - cursor;
            proof {
                assert(spec_labels_from(data@, gcur, current_pos as int) == Ok::<_, DnsError>(
                    (Seq::<Seq<u8>>::empty(), current_pos + 1 as int),
                ));
                assert(done + Seq::<Seq<u8>>::empty() =~= done);
                assert(spec_labels_from(data@, gcur, gcur) == Ok::<_, DnsError>(
                    (done, current_pos + 1 as int),
                ));
            }
            return Ok((name_bytes, consumed));
        } else if length >= 0x40 {
            if current_pos + 1 >= n {
                return Err(DnsError::Truncated);
            }
            let target: usize = (length % 64) as usize * 256 + data[current_pos + 1] as usize;
            if target >= cursor {
                return Err(DnsError::MalformedCompression);
            }
            match decode_name_bytes(data, target) {
                Err(e) => {
                    return Err(e);
                },
                Ok((mut tail_bytes, _target_len)) => {
                    let ghost tail_decoded = spec_labels_from(data@, target as int, target as int);
                    proof {
                        lemma_labels_from_bounds(data@, target as int, target as int);
                    }
                    let consumed = current_pos + 2 - cursor;
                    proof {
                        let tls = tail_decoded->Ok_0.0;
                        assert(tail_bytes@ == spec_join(tls));
                        lemma_join_empty_iff(tls);
                        lemma_join_concat(done, tls);
                    }
                    if name_bytes.len() > 0 && tail_bytes.len() > 0 {
                        name_bytes.push(0x2e);
                    }
                    name_bytes.append(&mut tail_bytes);
                    proof {
                        let tls = tail_decoded->Ok_0.0;
                        assert(name_bytes@ =~= spec_join(done + tls));
                        assert(spec_labels_from(data@, gcur, gcur) == Ok::<_, DnsError>(
                            (done + tls, current_pos + 2 as int),
                        ));
                    }
                    return Ok((name_bytes, consumed));
                },
            }
        } else {
            // ordinary label of `length` bytes
            let label_len = length as usize;
            if label_len > n - (current_pos + 1) {
                return Err(DnsError::Truncated);
            }
            if name_bytes.len() > 0 {
                name_bytes.push(0x2e);
            }
            let label = slice_subrange(data, current_pos + 1, current_pos + 1 + label_len);
            name_bytes.extend_from_slice(label);
            proof {
                lemma_join_push(done, label@);
                assert(name_bytes@ =~= spec_join(done.push(label@)));
            }
            let ghost prev_done = done;
            let ghost prev_pos = current_pos as int;
            proof {
                done = done.push(label@);
            }
            current_pos = current_pos + 1 + label_len;
            proof {
                match spec_labels_from(data@, gcur, current_pos as int) {
                    Ok(p) => {
                        assert(spec_labels_from(data@, gcur, prev_pos) == Ok::<_, DnsError>(
                            (seq![label@] + p.0, p.1),
                        ));
                        assert(prev_done + (seq![label@] + p.0) =~= done + p.0);
                    },
                    Err(e) => {
                        assert(spec_labels_from(data@, gcur, prev_pos) == Err::<
                            (Seq<Seq<u8>>, int),
                            DnsError,
                        >(e));
                    },
                }
            }
        }
    }
}

/// Decodes the length-prefixed, possibly compressed name at `cursor` into
/// its dotted form and reports how many bytes the name occupies at `cursor`
/// itself (two for a form that ends in a compression pointer, however long
/// the target is).
pub fn decode_name(data: &[u8], cursor: usize) -> (r: Result<(String, usize), DnsError>)
    ensures
        decode_outcome_matches(data@, cursor as int, r),
        r matches Ok(p) ==> 1 <= p.1 && cursor + p.1 <= data@.len(),
{
    match decode_name_bytes(data, cursor) {
        Err(e) => Err(e),
        Ok((name_bytes, consumed)) => match string_from_utf8(name_bytes) {
            Some(s) => Ok((s, consumed)),
            None => Err(DnsError::InvalidLabel),
        },
    }
}

/// Reads the two-byte compression pointer at `cursor` and decodes the name
/// at the pointer's target, as `decode_name` does there; the reported byte
/// count is the one measured at the target. The target must lie strictly
/// before `cursor`.
pub fn decode_compressed_name(buf: &[u8], cursor: usize) -> (r: Result<(String, usize), DnsError>)
    ensures
        ({
            if cursor as int + 1 >= buf@.len() {
                r == Err::<(String, usize), DnsError>(DnsError::Truncated)
            } else {
                let target = (buf@[cursor as int] as int % 64) * 256 + buf@[cursor as int
                    + 1] as int;
                if target >= cursor {
                    r == Err::<(String, usize), DnsError>(DnsError::MalformedCompression)
                } else {
                    decode_outcome_matches(buf@, target, r)
                }
            }
        }),
{
    let n = buf.len();
    if cursor >= n || cursor + 1 >= n {
        return Err(DnsError::Truncated);
    }
    let target: usize = (buf[cursor] % 64) as usize * 256 + buf[cursor + 1] as usize;
    if target >= cursor {
        return Err(DnsError::MalformedCompression);
    }
    decode_name(buf, target)
}

/// The round trip read at the string level: encoding the text of a name
/// whose labels have 1 to 63 bytes and decoding the result gives back
/// exactly that text, so `decode_name` after `encode_dns_name` returns
/// the name one started from.
pub proof fn lemma_name_round_trip_str(text: Seq<char>)
    requires
        forall|k: int|
            0 <= k < spec_labels_of(encode_utf8(text), 0).len() ==> 1 <= (#[trigger] spec_labels_of(
                encode_utf8(text),
                0,
            )[k]).len() <= 63,
    ensures
        ({
            let decoded = spec_decode_name(spec_encode_name(encode_utf8(text)), 0);
            &&& decoded matches Ok(p)
            &&& valid_utf8(p.0)
            &&& decode_utf8(p.0) == text
            &&& p.1 == encode_utf8(text).len() + 2
        }),
{
    let name = encode_utf8(text);
    lemma_name_round_trip(name);
    encode_utf8_valid_utf8(text);
    encode_utf8_decode_utf8(text);
}

/// A name that starts with a compression pointer whose target offset is at
/// or beyond the pointer's own offset is rejected as `MalformedCompression`;
/// the decoder never follows a self or forward pointer.
pub proof fn lemma_forward_pointer_rejected(data: Seq<u8>, x: int)
    requires
        0 <= x,
        x + 1 < data.len(),
        data[x] >= 0xC0,
        (data[x] as int % 64) * 256 + data[x + 1] as int >= x,
    ensures
        spec_decode_name(data, x) == Err::<(Seq<u8>, int), DnsError>(
            DnsError::MalformedCompression,
        ),
{
}

} // verus!
