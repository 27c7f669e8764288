//! Byte-level encodings: little-endian integers and concatenations of byte
//! strings.

use vstd::prelude::*;

verus! {

/// The order of the Ristretto group, `2^252 + 27742317777372353535851937790883648493`.
pub open spec fn group_order() -> nat {
    0x1000000000000000000000000000000014def9dea2f79cd65812631a5cf5d3ednat
}

/// The integer that `bytes` encodes in little-endian order.
pub open spec fn le_value(bytes: Seq<u8>) -> nat
    decreases bytes.len(),
{
    if bytes.len() == 0 {
        0
    } else {
        bytes[0] as nat + 256 * le_value(bytes.drop_first())
    }
}

/// The byte strings of `items`, one after the other.
pub open spec fn concat(items: Seq<Seq<u8>>) -> Seq<u8>
    decreases items.len(),
{
    if items.len() == 0 {
        Seq::empty()
    } else {
        concat(items.drop_last()) + items.last()
    }
}

/// Two byte strings of one length that encode the same integer are equal.
pub proof fn lemma_le_value_injective(a: Seq<u8>, b: Seq<u8>)
    requires
        a.len() == b.len(),
        le_value(a) == le_value(b),
    ensures
        a == b,
    decreases a.len(),
{
    if a.len() == 0 {
    } else {
        let ra = le_value(a.drop_first());
        let rb = le_value(b.drop_first());
        assert(a[0] == b[0] && ra == rb) by (nonlinear_arith)
            requires
                a[0] as nat + 256 * ra == b[0] as nat + 256 * rb,
                a[0] < 256,
                b[0] < 256,
        ;
        lemma_le_value_injective(a.drop_first(), b.drop_first());
        assert(b =~= seq![b[0]] + b.drop_first());
    }
}

/// Concatenating one more item appends it.
pub proof fn lemma_concat_push(items: Seq<Seq<u8>>, item: Seq<u8>)
    ensures
        concat(items.push(item)) == concat(items) + item,
{
    assert(items.push(item).drop_last() =~= items);
}

/// The concatenation of `n` items of 32 bytes each has `32 * n` bytes, and
/// item `i` lies at offset `32 * i`.
pub proof fn lemma_concat_fixed_width(items: Seq<Seq<u8>>)
    requires
        forall|i: int| 0 <= i < items.len() ==> (#[trigger] items[i]).len() == 32,
    ensures
        concat(items).len() == 32 * items.len(),
        forall|i: int|
            0 <= i < items.len() ==> #[trigger] items[i] == concat(items).subrange(
                32 * i,
                32 * i + 32,
            ),
    decreases items.len(),
{
    if items.len() > 0 {
        let front = items.drop_last();
        lemma_concat_fixed_width(front);
        assert forall|i: int| 0 <= i < items.len() implies #[trigger] items[i] == concat(
            items,
        ).subrange(32 * i, 32 * i + 32) by {
            if i < front.len() {
                assert(front[i] == items[i]);
            } else {
            }
        }
    }
}

/// The `i`-th block of 32 bytes of `bytes`.
pub open spec fn block(bytes: Seq<u8>, i: int) -> Seq<u8> {
    bytes.subrange(32 * i, 32 * i + 32)
}

/// The blocks `start`, `start + 1`, ... of `bytes`, `count` of them.
pub open spec fn blocks(bytes: Seq<u8>, start: int, count: nat) -> Seq<Seq<u8>> {
    Seq::new(count, |i: int| block(bytes, start + i))
}

/// Consecutive blocks, concatenated, are the part of the bytes that they
/// cover.
pub proof fn lemma_concat_blocks(bytes: Seq<u8>, start: int, count: nat)
    requires
        0 <= start,
        32 * (start + count) <= bytes.len(),
    ensures
        concat(blocks(bytes, start, count)) == bytes.subrange(32 * start, 32 * (start + count)),
    decreases count,
{
    if count == 0 {
    } else {
        let front = (count - 1) as nat;
        lemma_concat_blocks(bytes, start, front);
        assert(blocks(bytes, start, count).drop_last() =~= blocks(bytes, start, front));
    }
}

/// The `i`-th block of 32 bytes of `bytes`.
pub(crate) fn read_block(bytes: &[u8], i: usize) -> (r: [u8; 32])
    requires
        32 * (i + 1) <= bytes@.len(),
    ensures
        r@ == block(bytes@, i as int),
{
    let mut out = [0u8; 32];
    let len = bytes.len();
    let base = 32 * i;
    let mut k: usize = 0;
    while k < 32
        invariant
            k <= 32,
            base == 32 * i,
            32 * (i + 1) <= bytes@.len(),
            forall|x: int| 0 <= x < k ==> out@[x] == bytes@[base + x],
        decreases 32 - k,
    {
        out[k] = bytes[base + k];
        k += 1;
    }
    out
}

/// Whether two arrays of 32 bytes hold the same bytes.
pub(crate) fn bytes_equal(a: &[u8; 32], b: &[u8; 32]) -> (r: bool)
    ensures
        r == (a@ == b@),
{
    let mut i: usize = 0;
    while i < 32
        invariant
            i <= 32,
            forall|k: int| 0 <= k < i ==> a@[k] == b@[k],
        decreases 32 - i,
    {
        if a[i] != b[i] {
            return false;
        }
        i += 1;
    }
    assert(a@ =~= b@);
    true
}

/// Appends `data` to `out`.
pub(crate) fn append_bytes(out: &mut Vec<u8>, data: &[u8])
    ensures
        final(out)@ == old(out)@ + data@,
{
    let mut i: usize = 0;
    while i < data.len()
        invariant
            i <= data@.len(),
            out@ == old(out)@ + data@.take(i as int),
        decreases data@.len() - i,
    {
        out.push(data[i]);
        i += 1;
    }
}

} // verus!
