use vstd::prelude::*;

use crate::errors::ProcessError;
use crate::state::{item_fits, spec_validate, Favorites};
use crate::MAX_ITEM_LEN;
use crate::MAX_SLOTS;

verus! {

/// Little-endian four-byte wire form of a 32-bit length field.
pub open spec fn u32_le_bytes(n: u32) -> Seq<u8> {
    seq![
        (n % 256) as u8,
        ((n / 256) % 256) as u8,
        ((n / 65536) % 256) as u8,
        ((n / 16777216) % 256) as u8,
    ]
}

/// The 32-bit value read back from four little-endian bytes.
pub open spec fn u32_from_le(b: Seq<u8>) -> u32
    recommends
        b.len() == 4,
{
    (b[0] + b[1] * 256 + b[2] * 65536 + b[3] * 16777216) as u32
}

pub proof fn lemma_u32_le_round_trip(n: u32)
    ensures
        u32_le_bytes(n).len() == 4,
        u32_from_le(u32_le_bytes(n)) == n,
{
    assert(n == n % 256 + 256 * ((n / 256) % 256) + 65536 * ((n / 65536) % 256) + 16777216 * ((n
        / 16777216) % 256)) by (nonlinear_arith);
}

/// Wire form of one entry: a presence tag, and for a present entry its
/// 32-bit byte length followed by the bytes themselves.
pub open spec fn spec_encode_item(item: Option<Seq<u8>>) -> Seq<u8> {
    match item {
        Option::None => seq![0u8],
        Option::Some(s) => seq![1u8] + u32_le_bytes(s.len() as u32) + s,
    }
}

/// Wire form of a sequence of entries, one after another.
pub open spec fn spec_encode_items(items: Seq<Option<Seq<u8>>>) -> Seq<u8>
    decreases items.len(),
{
    if items.len() == 0 {
        Seq::<u8>::empty()
    } else {
        spec_encode_item(items[0]) + spec_encode_items(items.skip(1))
    }
}

/// Wire form of a whole record: the 32-bit entry count followed by the
/// entries. Encoding is a pure function of the record, so the same record
/// always yields the same bytes.
pub open spec fn spec_encode(items: Seq<Option<Seq<u8>>>) -> Seq<u8> {
    u32_le_bytes(items.len() as u32) + spec_encode_items(items)
}

/// Every length occurring in the record fits its 32-bit wire length field.
pub open spec fn fits_wire(items: Seq<Option<Seq<u8>>>) -> bool {
    &&& items.len() <= u32::MAX
    &&& forall|i: int|
        0 <= i < items.len() ==> (#[trigger] items[i] matches Option::Some(s) ==> s.len()
            <= u32::MAX)
}

/// The mathematical parser for `n` consecutive entries at the front of a
/// byte stream: the entries and the count of bytes consumed, or `None`
/// when the stream is truncated or malformed.
pub open spec fn spec_decode_items(bytes: Seq<u8>, n: int) -> Option<(Seq<Option<Seq<u8>>>, int)>
    decreases n,
{
    if n <= 0 {
        Option::Some((Seq::<Option<Seq<u8>>>::empty(), 0int))
    } else if bytes.len() < 1 {
        Option::None
    } else if bytes[0] == 0 {
        match spec_decode_items(bytes.skip(1), n - 1) {
            Option::None => Option::None,
            Option::Some(rest) => Option::Some(
                (seq![Option::None::<Seq<u8>>] + rest.0, 1 + rest.1),
            ),
        }
    } else if bytes[0] == 1 {
        if bytes.len() < 5 {
            Option::None
        } else {
            let l = u32_from_le(bytes.subrange(1, 5)) as int;
            if bytes.len() < 5 + l {
                Option::None
            } else {
                match spec_decode_items(bytes.skip(5 + l), n - 1) {
                    Option::None => Option::None,
                    Option::Some(rest) => Option::Some(
                        (seq![Option::Some(bytes.subrange(5, 5 + l))] + rest.0, 5 + l + rest.1),
                    ),
                }
            }
        }
    } else {
        Option::None
    }
}

/// The mathematical parser for one record at the front of a byte stream:
/// the decoded entries and the count of bytes consumed, or `None` when the
/// stream is truncated or malformed.
pub open spec fn spec_decode_prefix(bytes: Seq<u8>) -> Option<(Seq<Option<Seq<u8>>>, int)> {
    if bytes.len() < 4 {
        Option::None
    } else {
        let n = u32_from_le(bytes.subrange(0, 4));
        match spec_decode_items(bytes.skip(4), n as int) {
            Option::None => Option::None,
            Option::Some(rest) => Option::Some((rest.0, 4 + rest.1)),
        }
    }
}

/// Exact decoding of a whole buffer: one record, with every byte consumed.
pub open spec fn spec_decode_all(bytes: Seq<u8>) -> Option<Seq<Option<Seq<u8>>>> {
    match spec_decode_prefix(bytes) {
        Option::None => Option::None,
        Option::Some(r) => if r.1 == bytes.len() {
            Option::Some(r.0)
        } else {
            Option::None
        },
    }
}

proof fn lemma_encode_items_push(items: Seq<Option<Seq<u8>>>, x: Option<Seq<u8>>)
    ensures
        spec_encode_items(items.push(x)) == spec_encode_items(items) + spec_encode_item(x),
    decreases items.len(),
{
    if items.len() == 0 {
        assert(items.push(x)[0] == x);
        assert(items.push(x).skip(1) =~= Seq::<Option<Seq<u8>>>::empty());
        assert(spec_encode_items(Seq::<Option<Seq<u8>>>::empty()) == Seq::<u8>::empty());
        assert(spec_encode_items(items.push(x)) =~= spec_encode_items(items) + spec_encode_item(
            x,
        ));
    } else {
        lemma_encode_items_push(items.skip(1), x);
        assert(items.push(x).skip(1) =~= items.skip(1).push(x));
        assert(spec_encode_items(items.push(x)) =~= spec_encode_items(items) + spec_encode_item(
            x,
        ));
    }
}

/// Appends the four little-endian bytes of `v` to `out`.
fn push_u32_le(out: &mut Vec<u8>, v: u32)
    ensures
        final(out)@ == old(out)@ + u32_le_bytes(v),
{
    out.push((v % 256) as u8);
    out.push(((v / 256) % 256) as u8);
    out.push(((v / 65536) % 256) as u8);
    out.push(((v / 16777216) % 256) as u8);
    assert(out@ =~= old(out)@ + u32_le_bytes(v));
}

/// Encodes a record into its length-prefixed wire form. Succeeds exactly
/// when every length in the record fits its 32-bit wire length field, and
/// then returns exactly the bytes that [`spec_encode`] assigns.
pub fn encode(fav: &Favorites) -> (r: Result<Vec<u8>, ProcessError>)
    ensures
        (match r {
            Ok(bytes) => fits_wire(fav@) && bytes@ == spec_encode(fav@),
            Err(e) => e == ProcessError::BorshIo && !fits_wire(fav@),
        }),
{
    let n = fav.data.len();
    if n > u32::MAX as usize {
        return Err(ProcessError::BorshIo);
    }
    let mut out: Vec<u8> = Vec::new();
    push_u32_le(&mut out, n as u32);
    proof {
        assert(fav@.len() == fav.data@.len());
        assert(fav@.take(0) =~= Seq::<Option<Seq<u8>>>::empty());
        assert(out@ =~= u32_le_bytes(n as u32) + spec_encode_items(fav@.take(0)));
    }
    for i in 0..n
        invariant
            n == fav.data.len(),
            n <= u32::MAX,
            fav@.len() == n,
            out@ == u32_le_bytes(n as u32) + spec_encode_items(fav@.take(i as int)),
            forall|j: int|
                0 <= j < i ==> (#[trigger] fav@[j] matches Option::Some(s) ==> s.len()
                    <= u32::MAX),
    {
        let ghost prefix = out@;
        match &fav.data[i] {
            Option::None => {
                out.push(0u8);
                proof {
                    assert(fav@[i as int] == fav.data@[i as int].deep_view());
                    assert(out@ =~= prefix + spec_encode_item(fav@[i as int]));
                }
            },
            Option::Some(s) => {
                if s.len() > u32::MAX as usize {
                    proof {
                        assert(fav@[i as int] == fav.data@[i as int].deep_view());
                        assert(fav@[i as int] matches Option::Some(t) && t.len() > u32::MAX);
                        assert(!fits_wire(fav@));
                    }
                    return Err(ProcessError::BorshIo);
                }
                out.push(1u8);
                push_u32_le(&mut out, s.len() as u32);
                let slen = s.len();
                for k in 0..slen
                    invariant
                        slen == s@.len(),
                        out@ == prefix + seq![1u8] + u32_le_bytes(slen as u32) + s@.take(k as int),
                {
                    out.push(s[k]);
                    assert(out@ =~= prefix + seq![1u8] + u32_le_bytes(slen as u32) + s@.take(
                        k as int + 1,
                    ));
                }
                proof {
                    assert(fav@[i as int] == fav.data@[i as int].deep_view());
                    assert(fav@[i as int] matches Option::Some(t) && t =~= s.deep_view());
                    assert(s.deep_view() =~= s@);
                    assert(s@.take(slen as int) =~= s@);
                    assert(out@ =~= prefix + spec_encode_item(fav@[i as int]));
                }
            },
        }
        proof {
            assert(fav@.take(i as int + 1) =~= fav@.take(i as int).push(fav@[i as int]));
            lemma_encode_items_push(fav@.take(i as int), fav@[i as int]);
            assert(out@ =~= u32_le_bytes(n as u32) + spec_encode_items(fav@.take(i as int + 1)));
        }
    }
    proof {
        assert(fav@.take(n as int) =~= fav@);
        assert(out@ =~= spec_encode(fav@));
    }
    Ok(out)
}

/// Reads the 32-bit little-endian value at `pos`.
fn read_u32_le(bytes: &[u8], pos: usize) -> (r: u32)
    requires
        pos + 4 <= bytes@.len(),
    ensures
        r == u32_from_le(bytes@.subrange(pos as int, pos as int + 4)),
{
    let b0 = bytes[pos] as u32;
    let b1 = bytes[pos + 1] as u32;
    let b2 = bytes[pos + 2] as u32;
    let b3 = bytes[pos + 3] as u32;
    let r = b0 + b1 * 256 + b2 * 65536 + b3 * 16777216;
    proof {
        let sub = bytes@.subrange(pos as int, pos as int + 4);
        assert(sub[0] == bytes@[pos as int]);
        assert(sub[1] == bytes@[pos as int + 1]);
        assert(sub[2] == bytes@[pos as int + 2]);
        assert(sub[3] == bytes@[pos as int + 3]);
    }
    r
}

/// Copies `len` bytes starting at `start` into a fresh vector.
fn copy_range(bytes: &[u8], start: usize, len: usize) -> (r: Vec<u8>)
    requires
        start + len <= bytes@.len(),
    ensures
        r@ == bytes@.subrange(start as int, start as int + len as int),
{
    let total = bytes.len();
    let mut out: Vec<u8> = Vec::new();
    let mut k: usize = 0;
    while k < len
        invariant
            k <= len,
            total == bytes@.len(),
            start + len <= total,
            out@ == bytes@.subrange(start as int, start as int + k as int),
        decreases len - k,
    {
        out.push(bytes[start + k]);
        assert(out@ =~= bytes@.subrange(start as int, start as int + k as int + 1));
        k += 1;
    }
    out
}

/// Decodes one record from the front of `bytes`. Returns the record and
/// the count of bytes consumed, exactly as [`spec_decode_prefix`] assigns
/// them, and fails exactly when that parse fails.
pub fn decode_prefix(bytes: &[u8]) -> (r: Result<(Favorites, usize), ProcessError>)
    ensures
        (match r {
            Ok(p) => spec_decode_prefix(bytes@) == Some((p.0@, p.1 as int)) && p.1 <= bytes@.len(),
            Err(e) => e == ProcessError::BorshIo && spec_decode_prefix(bytes@) is None,
        }),
{
    if bytes.len() < 4 {
        return Err(ProcessError::BorshIo);
    }
    let n = read_u32_le(bytes, 0);
    let mut items: Vec<Option<Vec<u8>>> = Vec::new();
    let mut pos: usize = 4;
    let mut i: u32 = 0;
    proof {
        assert(bytes@.subrange(0int, 4int) == bytes@.subrange(0int, 0int + 4));
        match spec_decode_items(bytes@.skip(4), (n - i) as int) {
            Option::None => {},
            Option::Some(rest) => {
                assert(items.deep_view() + rest.0 =~= rest.0);
            },
        }
    }
    while i < n
        invariant
            bytes@.len() >= 4,
            4 <= pos <= bytes@.len(),
            i <= n,
            n == u32_from_le(bytes@.subrange(0, 4)),
            items@.len() == i,
            (match spec_decode_items(bytes@.skip(pos as int), n - i) {
                Option::None => spec_decode_items(bytes@.skip(4), n as int) is None,
                Option::Some(rest) => spec_decode_items(bytes@.skip(4), n as int) == Some(
                    (items.deep_view() + rest.0, (pos - 4) + rest.1),
                ),
            }),
        decreases n - i,
    {
        let ghost done = items.deep_view();
        let ghost pos0 = pos as int;
        let ghost left0 = bytes@.skip(pos0);
        if pos >= bytes.len() {
            proof {
                assert(left0.len() == 0);
                assert(spec_decode_items(left0, n - i) is None);
            }
            return Err(ProcessError::BorshIo);
        }
        let tag = bytes[pos];
        proof {
            assert(left0[0] == bytes@[pos0]);
        }
        if tag == 0 {
            items.push(None);
            pos = pos + 1;
            i = i + 1;
            proof {
                assert(left0.skip(1) =~= bytes@.skip(pos as int));
                assert(items.deep_view() =~= done.push(Option::None::<Seq<u8>>));
                match spec_decode_items(bytes@.skip(pos as int), n - i) {
                    Option::None => {
                        assert(spec_decode_items(left0, n - (i - 1)) is None);
                    },
                    Option::Some(rest) => {
                        assert(spec_decode_items(left0, n - (i - 1)) == Some(
                            (seq![Option::None::<Seq<u8>>] + rest.0, 1 + rest.1),
                        ));
                        assert(done + (seq![Option::None::<Seq<u8>>] + rest.0) =~= items.deep_view()
                            + rest.0);
                    },
                }
            }
        } else if tag == 1 {
            if bytes.len() - pos < 5 {
                proof {
                    assert(left0.len() < 5);
                    assert(spec_decode_items(left0, n - i) is None);
                }
                return Err(ProcessError::BorshIo);
            }
            let l = read_u32_le(bytes, pos + 1);
            proof {
                assert(left0.subrange(1, 5) =~= bytes@.subrange(pos0 + 1, pos0 + 1 + 4));
            }
            if (l as usize) > (bytes.len() - pos) - 5 {
                proof {
                    assert(left0.len() < 5 + l);
                    assert(spec_decode_items(left0, n - i) is None);
                }
                return Err(ProcessError::BorshIo);
            }
            let s = copy_range(bytes, pos + 5, l as usize);
            proof {
                assert(left0.len() >= 5 + l);
                assert(left0.subrange(5, 5 + l as int) =~= bytes@.subrange(
                    pos0 + 5,
                    pos0 + 5 + l as int,
                ));
                assert(s@ == left0.subrange(5, 5 + l as int));
            }
            items.push(Some(s));
            pos = pos + 5 + (l as usize);
            i = i + 1;
            proof {
                assert(left0.skip(5 + l as int) =~= bytes@.skip(pos as int));
                assert(s.deep_view() =~= s@);
                assert(items.deep_view() =~= done.push(Option::Some(s@)));
                match spec_decode_items(bytes@.skip(pos as int), n - i) {
                    Option::None => {
                        assert(spec_decode_items(left0, n - (i - 1)) is None);
                    },
                    Option::Some(rest) => {
                        assert(spec_decode_items(left0, n - (i - 1)) == Some(
                            (seq![Option::Some(s@)] + rest.0, 5 + l as int + rest.1),
                        ));
                        assert(done + (seq![Option::Some(s@)] + rest.0) =~= items.deep_view()
                            + rest.0);
                    },
                }
            }
        } else {
            proof {
                assert(spec_decode_items(left0, n - i) is None);
            }
            return Err(ProcessError::BorshIo);
        }
    }
    proof {
        assert(spec_decode_items(bytes@.skip(pos as int), n - i) == Some(
            (Seq::<Option<Seq<u8>>>::empty(), 0int),
        ));
        match spec_decode_items(bytes@.skip(pos as int), n - i) {
            Option::None => {},
            Option::Some(rest) => {
                assert(items.deep_view() + rest.0 =~= items.deep_view());
            },
        }
        assert(bytes@.subrange(0int, 4int) == bytes@.subrange(0int, 0int + 4));
    }
    Ok((Favorites { data: items }, pos))
}

/// Decodes a whole buffer as one record, requiring every byte to be
/// consumed. Succeeds exactly when [`spec_decode_all`] does.
pub fn decode(bytes: &[u8]) -> (r: Result<Favorites, ProcessError>)
    ensures
        (match r {
            Ok(f) => spec_decode_all(bytes@) == Some(f@),
            Err(e) => e == ProcessError::BorshIo && spec_decode_all(bytes@) is None,
        }),
{
    match decode_prefix(bytes) {
        Ok(p) => {
            let (f, used) = p;
            if used == bytes.len() {
                Ok(f)
            } else {
                Err(ProcessError::BorshIo)
            }
        },
        Err(e) => Err(e),
    }
}

/// The reference record used to size a slot: every entry present and
/// exactly `MAX_ITEM_LEN` bytes long.
pub open spec fn spec_max_record() -> Seq<Option<Seq<u8>>> {
    Seq::new(MAX_SLOTS as nat, |i: int| Option::Some(Seq::new(MAX_ITEM_LEN as nat, |j: int| 0u8)))
}

/// The canonical slot size: the byte length of the wire form of the
/// reference record. A slot is allocated with exactly this many bytes.
pub open spec fn spec_canonical_size() -> int {
    spec_encode(spec_max_record()).len() as int
}

proof fn lemma_encode_items_uniform(items: Seq<Option<Seq<u8>>>, k: int)
    requires
        forall|i: int|
            0 <= i < items.len() ==> (#[trigger] items[i] matches Option::Some(s) && s.len() == k),
    ensures
        spec_encode_items(items).len() == items.len() * (5 + k),
    decreases items.len(),
{
    if items.len() == 0 {
        assert(spec_encode_items(items).len() == 0);
    } else {
        let rest = items.skip(1);
        assert forall|j: int|
            0 <= j < rest.len() implies (#[trigger] rest[j] matches Option::Some(s) && s.len()
            == k) by {
            assert(rest[j] == items[j + 1]);
        }
        lemma_encode_items_uniform(rest, k);
        assert(items[0] matches Option::Some(s) && s.len() == k);
        assert(spec_encode_item(items[0]).len() == 5 + k);
        assert(spec_encode_items(items).len() == (5 + k) + rest.len() * (5 + k));
        assert((5 + k) + rest.len() * (5 + k) == items.len() * (5 + k)) by (nonlinear_arith)
            requires rest.len() == items.len() - 1;
    }
}

/// The canonical size has the concrete value 79: a four-byte count plus
/// `MAX_SLOTS` entries of one tag byte, four length bytes and
/// `MAX_ITEM_LEN` content bytes each.
pub proof fn lemma_canonical_size_value()
    ensures
        spec_canonical_size() == 79,
{
    let m = spec_max_record();
    assert(m.len() == 5);
    assert forall|i: int|
        0 <= i < m.len() implies (#[trigger] m[i] matches Option::Some(s) && s.len()
        == MAX_ITEM_LEN) by {
        assert(m[i] == Option::Some(Seq::new(MAX_ITEM_LEN as nat, |j: int| 0u8)));
    }
    lemma_encode_items_uniform(m, MAX_ITEM_LEN as int);
    assert(spec_encode(m).len() == 4 + 5 * 15);
}

proof fn lemma_encode_items_len_bounded(items: Seq<Option<Seq<u8>>>)
    requires
        forall|i: int| 0 <= i < items.len() ==> item_fits(#[trigger] items[i]),
    ensures
        spec_encode_items(items).len() <= items.len() * (5 + MAX_ITEM_LEN),
    decreases items.len(),
{
    if items.len() == 0 {
    } else {
        let rest = items.skip(1);
        assert forall|j: int| 0 <= j < rest.len() implies item_fits(#[trigger] rest[j]) by {
            assert(rest[j] == items[j + 1]);
        }
        lemma_encode_items_len_bounded(rest);
        assert(item_fits(items[0]));
        assert(spec_encode_item(items[0]).len() <= 5 + MAX_ITEM_LEN);
        assert((5 + MAX_ITEM_LEN) + rest.len() * (5 + MAX_ITEM_LEN) <= items.len() * (5
            + MAX_ITEM_LEN)) by (nonlinear_arith)
            requires rest.len() == items.len() - 1;
    }
}

/// Law: the wire form of any record that passes validation is no longer
/// than the canonical slot size, so a validated record always fits the
/// buffer allocated at slot creation.
pub proof fn lemma_encoded_size_bounded(items: Seq<Option<Seq<u8>>>)
    requires
        spec_validate(items) is Ok,
    ensures
        spec_encode(items).len() <= spec_canonical_size(),
{
    assert(forall|i: int| 0 <= i < items.len() ==> item_fits(#[trigger] items[i]));
    lemma_encode_items_len_bounded(items);
    assert(items.len() <= MAX_SLOTS);
    assert(items.len() * (5 + MAX_ITEM_LEN) <= MAX_SLOTS * (5 + MAX_ITEM_LEN)) by (nonlinear_arith)
        requires items.len() <= MAX_SLOTS;
    lemma_canonical_size_value();
}

proof fn lemma_decode_encode_items(items: Seq<Option<Seq<u8>>>, tail: Seq<u8>)
    requires
        forall|i: int|
            0 <= i < items.len() ==> (#[trigger] items[i] matches Option::Some(s) ==> s.len()
                <= u32::MAX),
    ensures
        spec_decode_items(spec_encode_items(items) + tail, items.len() as int) == Some(
            (items, spec_encode_items(items).len() as int),
        ),
    decreases items.len(),
{
    let enc = spec_encode_items(items);
    let b = enc + tail;
    if items.len() == 0 {
        assert(items =~= Seq::<Option<Seq<u8>>>::empty());
        assert(enc.len() == 0);
    } else {
        let first = items[0];
        let rest = items.skip(1);
        assert forall|j: int|
            0 <= j < rest.len() implies (#[trigger] rest[j] matches Option::Some(s) ==> s.len()
            <= u32::MAX) by {
            assert(rest[j] == items[j + 1]);
        }
        lemma_decode_encode_items(rest, tail);
        let encr = spec_encode_items(rest);
        assert(enc == spec_encode_item(first) + encr);
        match first {
            Option::None => {
                assert(b[0] == 0);
                assert(b.skip(1) =~= encr + tail);
                assert(seq![Option::None::<Seq<u8>>] + rest =~= items);
                assert(enc.len() == 1 + encr.len());
                assert(spec_decode_items(b, items.len() as int) == Some(
                    (items, enc.len() as int),
                ));
            },
            Option::Some(s) => {
                let sl = s.len() as int;
                assert(spec_encode_item(first) == seq![1u8] + u32_le_bytes(s.len() as u32) + s);
                assert(b[0] == 1);
                lemma_u32_le_round_trip(s.len() as u32);
                assert(b.len() >= 5 + sl);
                assert(b.subrange(1, 5) =~= u32_le_bytes(s.len() as u32));
                assert(u32_from_le(b.subrange(1, 5)) as int == sl);
                assert(b.subrange(5, 5 + sl) =~= s);
                assert(b.skip(5 + sl) =~= encr + tail);
                assert(seq![Option::Some(s)] + rest =~= items);
                assert(enc.len() == 5 + sl + encr.len());
                assert(spec_decode_items(b, items.len() as int) == Some(
                    (items, enc.len() as int),
                ));
            },
        }
    }
}

/// Law: decoding the wire form of a record gives back exactly that
/// record. Holds for every record that passes validation.
pub proof fn lemma_round_trip(items: Seq<Option<Seq<u8>>>)
    requires
        spec_validate(items) is Ok,
    ensures
        spec_decode_all(spec_encode(items)) == Some(items),
{
    assert(items.len() <= MAX_SLOTS);
    assert forall|i: int|
        0 <= i < items.len() implies (#[trigger] items[i] matches Option::Some(s) ==> s.len()
        <= u32::MAX) by {
        assert(item_fits(items[i]));
    }
    lemma_u32_le_round_trip(items.len() as u32);
    lemma_decode_encode_items(items, Seq::<u8>::empty());
    let enc = spec_encode(items);
    let enci = spec_encode_items(items);
    assert(enc.subrange(0, 4) =~= u32_le_bytes(items.len() as u32));
    assert(enc.skip(4) =~= enci + Seq::<u8>::empty());
    assert(u32_from_le(enc.subrange(0, 4)) as int == items.len() as int);
    assert(enc.len() == 4 + enci.len());
}

} // verus!
