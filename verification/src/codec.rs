use vstd::prelude::*;
use vstd::bytes::lemma_auto_spec_u32_to_from_le_bytes;
use vstd::bytes::lemma_auto_spec_u64_to_from_le_bytes;
use vstd::bytes::spec_u32_from_le_bytes;
use vstd::bytes::spec_u32_to_le_bytes;
use vstd::bytes::spec_u64_from_le_bytes;
use vstd::bytes::spec_u64_to_le_bytes;
use vstd::bytes::u32_from_le_bytes;
use vstd::bytes::u32_to_le_bytes;
use vstd::bytes::u64_from_le_bytes;
use vstd::bytes::u64_to_le_bytes;
use vstd::slice::slice_subrange;
use crate::errors::ErrorKind;
use crate::record::Favorites;
use crate::record::FavoritesView;
use crate::record::MAX_COLOR_BYTES;
use crate::record::MAX_HOBBIES;
use crate::record::MAX_HOBBY_BYTES;
use crate::record::record_fits;

verus! {

/// Size of the account tag that opens every buffer.
pub const DISCRIMINATOR_LEN: usize = 8;

/// Size of one hobby slot: a 4-byte length prefix and the largest hobby.
pub const HOBBY_SLOT_LEN: usize = 54;

/// Total capacity of an encoded record: tag, number, length-prefixed color
/// region, hobby count, and five hobby slots. Every buffer this codec writes
/// has exactly this size, whatever the record holds.
pub const RECORD_SPACE: usize = 344;

/// The fixed 8-byte tag identifying a favorites record account.
pub open spec fn spec_discriminator() -> Seq<u8> {
    seq![0x2cu8, 0xcdu8, 0x30u8, 0x19u8, 0xacu8, 0x60u8, 0x30u8, 0x1bu8]
}

/// `n` zero bytes.
pub open spec fn zeros(n: nat) -> Seq<u8> {
    Seq::new(n, |i: int| 0u8)
}

/// A variable field laid into its fixed region: the bytes, then zero padding
/// up to `n`.
pub open spec fn padded(s: Seq<u8>, n: nat) -> Seq<u8>
    recommends
        s.len() <= n,
{
    s + zeros((n - s.len()) as nat)
}

/// One hobby slot: 4-byte length prefix, then the entry in its fixed region.
pub open spec fn spec_slot(s: Seq<u8>) -> Seq<u8> {
    spec_u32_to_le_bytes(s.len() as u32) + padded(s, MAX_HOBBY_BYTES as nat)
}

/// The slot written at position `i`: an occupied slot while hobbies remain,
/// an all-zero slot after.
pub open spec fn spec_slot_at(h: Seq<Seq<u8>>, i: int) -> Seq<u8> {
    if i < h.len() {
        spec_slot(h[i])
    } else {
        zeros(HOBBY_SLOT_LEN as nat)
    }
}

/// The first `n` hobby slots, in order.
pub open spec fn spec_slots(h: Seq<Seq<u8>>, n: int) -> Seq<u8>
    decreases n,
{
    if n <= 0 {
        Seq::empty()
    } else {
        spec_slots(h, n - 1) + spec_slot_at(h, n - 1)
    }
}

/// The fixed-size buffer that encodes a record: tag, number, length-prefixed
/// color, hobby count, and all five hobby slots.
pub open spec fn spec_encode(v: FavoritesView) -> Seq<u8> {
    spec_discriminator() + spec_u64_to_le_bytes(v.number) + spec_u32_to_le_bytes(
        v.color.len() as u32,
    ) + padded(v.color, MAX_COLOR_BYTES as nat) + spec_u32_to_le_bytes(v.hobbies.len() as u32)
        + spec_slots(v.hobbies, MAX_HOBBIES as int)
}

/// The color length a buffer declares.
pub open spec fn spec_color_len(b: Seq<u8>) -> int {
    spec_u32_from_le_bytes(b.subrange(16, 20)) as int
}

/// The hobby count a buffer declares.
pub open spec fn spec_hobby_count(b: Seq<u8>) -> int {
    spec_u32_from_le_bytes(b.subrange(70, 74)) as int
}

/// The length that slot `i` of a buffer declares.
pub open spec fn spec_hobby_len(b: Seq<u8>, i: int) -> int {
    spec_u32_from_le_bytes(b.subrange(74 + 54 * i, 74 + 54 * i + 4)) as int
}

/// A buffer this codec accepts: full size, the right tag, and every declared
/// length within its region.
pub open spec fn well_formed(b: Seq<u8>) -> bool {
    &&& b.len() == RECORD_SPACE
    &&& b.subrange(0, 8) == spec_discriminator()
    &&& spec_color_len(b) <= MAX_COLOR_BYTES
    &&& spec_hobby_count(b) <= MAX_HOBBIES
    &&& forall|i: int| 0 <= i < spec_hobby_count(b) ==> #[trigger] spec_hobby_len(b, i)
        <= MAX_HOBBY_BYTES
}

/// The record a well-formed buffer holds.
pub open spec fn spec_decode(b: Seq<u8>) -> FavoritesView {
    FavoritesView {
        number: spec_u64_from_le_bytes(b.subrange(8, 16)),
        color: b.subrange(20, 20 + spec_color_len(b)),
        hobbies: Seq::new(
            spec_hobby_count(b) as nat,
            |i: int| b.subrange(74 + 54 * i + 4, 74 + 54 * i + 4 + spec_hobby_len(b, i)),
        ),
    }
}

/// Appends the fixed account tag.
pub(crate) fn push_discriminator(out: &mut Vec<u8>)
    ensures
        final(out)@ == old(out)@ + spec_discriminator(),
{
    out.push(0x2c);
    out.push(0xcd);
    out.push(0x30);
    out.push(0x19);
    out.push(0xac);
    out.push(0x60);
    out.push(0x30);
    out.push(0x1b);
    proof {
        assert(final(out)@ =~= old(out)@ + spec_discriminator());
    }
}

/// Appends a length prefix, the field's bytes, and zero padding to `width`.
fn push_len_prefixed(out: &mut Vec<u8>, s: &Vec<u8>, width: usize)
    requires
        s@.len() <= width,
        width <= 0xffff_ffff,
    ensures
        final(out)@ == old(out)@ + spec_u32_to_le_bytes(s@.len() as u32) + padded(
            s@,
            width as nat,
        ),
{
    let base: Ghost<Seq<u8>> = Ghost(out@);
    let mut lenb = u32_to_le_bytes(s.len() as u32);
    out.append(&mut lenb);
    let prefix: Ghost<Seq<u8>> = Ghost(out@);
    let mut k: usize = 0;
    while k < s.len()
        invariant
            k <= s@.len(),
            out@ == prefix@ + s@.subrange(0, k as int),
        decreases s@.len() - k,
    {
        out.push(s[k]);
        proof {
            assert(prefix@ + s@.subrange(0, k as int) + seq![s@[k as int]] =~= prefix@
                + s@.subrange(0, k as int + 1));
        }
        k += 1;
    }
    proof {
        assert(s@.subrange(0, s@.len() as int) =~= s@);
    }
    while k < width
        invariant
            s@.len() <= k <= width,
            out@ == prefix@ + s@ + zeros((k - s@.len()) as nat),
        decreases width - k,
    {
        out.push(0u8);
        proof {
            assert(prefix@ + s@ + zeros((k - s@.len()) as nat) + seq![0u8] =~= prefix@ + s@
                + zeros((k + 1 - s@.len()) as nat));
        }
        k += 1;
    }
    proof {
        assert(out@ =~= base@ + spec_u32_to_le_bytes(s@.len() as u32) + padded(s@, width as nat));
    }
}

/// Appends one all-zero hobby slot.
fn push_empty_slot(out: &mut Vec<u8>)
    ensures
        final(out)@ == old(out)@ + zeros(HOBBY_SLOT_LEN as nat),
{
    let base: Ghost<Seq<u8>> = Ghost(out@);
    let mut k: usize = 0;
    while k < HOBBY_SLOT_LEN
        invariant
            k <= HOBBY_SLOT_LEN,
            out@ == base@ + zeros(k as nat),
        decreases HOBBY_SLOT_LEN - k,
    {
        out.push(0u8);
        proof {
            assert(base@ + zeros(k as nat) + seq![0u8] =~= base@ + zeros((k + 1) as nat));
        }
        k += 1;
    }
}

/// Encodes a record into its fixed-size buffer.
///
/// Succeeds exactly on the records that respect every declared capacity, and
/// then returns the one buffer `spec_encode` describes; any record over a
/// capacity is rejected whole, with nothing written.
pub fn encode(rec: &Favorites) -> (r: Result<Vec<u8>, ErrorKind>)
    ensures
        record_fits(rec@) ==> (r matches Ok(buf) && buf@ == spec_encode(rec@) && buf@.len()
            == RECORD_SPACE),
        !record_fits(rec@) ==> r == Err::<Vec<u8>, ErrorKind>(ErrorKind::CapacityExceededError),
{
    if !rec.fits() {
        return Err(ErrorKind::CapacityExceededError);
    }
    let mut out: Vec<u8> = Vec::new();
    push_discriminator(&mut out);
    let mut num = u64_to_le_bytes(rec.number);
    out.append(&mut num);
    push_len_prefixed(&mut out, &rec.color, MAX_COLOR_BYTES);
    let mut cnt = u32_to_le_bytes(rec.hobbies.len() as u32);
    out.append(&mut cnt);
    let head: Ghost<Seq<u8>> = Ghost(out@);
    let mut i: usize = 0;
    while i < MAX_HOBBIES
        invariant
            record_fits(rec@),
            i <= MAX_HOBBIES,
            out@ == head@ + spec_slots(rec@.hobbies, i as int),
        decreases MAX_HOBBIES - i,
    {
        if i < rec.hobbies.len() {
            proof {
                assert(rec@.hobbies[i as int] == rec.hobbies@[i as int]@);
                assert(rec@.hobbies[i as int].len() <= MAX_HOBBY_BYTES);
            }
            push_len_prefixed(&mut out, &rec.hobbies[i], MAX_HOBBY_BYTES);
            proof {
                assert(spec_slot_at(rec@.hobbies, i as int) == spec_slot(rec@.hobbies[i as int]));
                assert(head@ + spec_slots(rec@.hobbies, i as int) + spec_slot(
                    rec@.hobbies[i as int],
                ) =~= head@ + spec_slots(rec@.hobbies, i as int + 1));
            }
        } else {
            push_empty_slot(&mut out);
            proof {
                assert(head@ + spec_slots(rec@.hobbies, i as int) + zeros(HOBBY_SLOT_LEN as nat)
                    =~= head@ + spec_slots(rec@.hobbies, i as int + 1));
            }
        }
        i += 1;
    }
    proof {
        assert(out@ =~= spec_encode(rec@));
        lemma_spec_encode_len(rec@);
    }
    Ok(out)
}

/// The slot region of the first `n` slots is `n` slots long, once every
/// occupied slot fits its region.
proof fn lemma_slots_len(h: Seq<Seq<u8>>, n: int)
    requires
        0 <= n,
        forall|i: int| 0 <= i < h.len() ==> (#[trigger] h[i]).len() <= MAX_HOBBY_BYTES,
    ensures
        spec_slots(h, n).len() == 54 * n,
    decreases n,
{
    lemma_auto_spec_u32_to_from_le_bytes();
    if n > 0 {
        lemma_slots_len(h, n - 1);
    }
}

/// A fitting record always encodes to the full fixed capacity.
pub proof fn lemma_spec_encode_len(v: FavoritesView)
    requires
        record_fits(v),
    ensures
        spec_encode(v).len() == RECORD_SPACE,
{
    lemma_auto_spec_u32_to_from_le_bytes();
    lemma_auto_spec_u64_to_from_le_bytes();
    lemma_slots_len(v.hobbies, MAX_HOBBIES as int);
}

/// Within the first `n` slots, slot `i` sits at its fixed offset.
proof fn lemma_slots_index(h: Seq<Seq<u8>>, n: int, i: int)
    requires
        0 <= i < n,
        forall|t: int| 0 <= t < h.len() ==> (#[trigger] h[t]).len() <= MAX_HOBBY_BYTES,
    ensures
        spec_slots(h, n).subrange(54 * i, 54 * i + 54) == spec_slot_at(h, i),
    decreases n,
{
    lemma_auto_spec_u32_to_from_le_bytes();
    lemma_slots_len(h, n - 1);
    lemma_slots_len(h, n);
    assert(spec_slot_at(h, i).len() == 54);
    if i == n - 1 {
        assert(spec_slots(h, n).subrange(54 * i, 54 * i + 54) =~= spec_slot_at(h, i));
    } else {
        lemma_slots_index(h, n - 1, i);
        assert(spec_slots(h, n).subrange(54 * i, 54 * i + 54) =~= spec_slots(h, n - 1).subrange(
            54 * i,
            54 * i + 54,
        ));
    }
}

/// Codec round trip: the buffer a fitting record encodes to is well formed,
/// and decoding it yields the record back, field for field.
pub proof fn lemma_round_trip(v: FavoritesView)
    requires
        record_fits(v),
    ensures
        well_formed(spec_encode(v)),
        spec_decode(spec_encode(v)) == v,
{
    lemma_auto_spec_u32_to_from_le_bytes();
    lemma_auto_spec_u64_to_from_le_bytes();
    lemma_slots_len(v.hobbies, MAX_HOBBIES as int);
    lemma_spec_encode_len(v);
    let b = spec_encode(v);
    let tag = spec_discriminator();
    let num_bytes = spec_u64_to_le_bytes(v.number);
    let color_len_bytes = spec_u32_to_le_bytes(v.color.len() as u32);
    let color_region = padded(v.color, MAX_COLOR_BYTES as nat);
    let count_bytes = spec_u32_to_le_bytes(v.hobbies.len() as u32);
    let slot_region = spec_slots(v.hobbies, MAX_HOBBIES as int);
    assert(b.subrange(0, 8) =~= tag);
    assert(b.subrange(8, 16) =~= num_bytes);
    assert(b.subrange(16, 20) =~= color_len_bytes);
    assert(b.subrange(70, 74) =~= count_bytes);
    assert(spec_color_len(b) == v.color.len());
    assert(b.subrange(20, 20 + spec_color_len(b)) =~= v.color);
    assert(spec_hobby_count(b) == v.hobbies.len());
    assert forall|i: int| 0 <= i < v.hobbies.len() implies #[trigger] spec_hobby_len(b, i)
        == v.hobbies[i].len() && b.subrange(
        74 + 54 * i + 4,
        74 + 54 * i + 4 + v.hobbies[i].len(),
    ) == v.hobbies[i] by {
        lemma_slots_index(v.hobbies, MAX_HOBBIES as int, i);
        assert(b.subrange(74 + 54 * i, 74 + 54 * i + 54) =~= slot_region.subrange(54 * i, 54 * i + 54));
        assert(b.subrange(74 + 54 * i, 74 + 54 * i + 54) == spec_slot(v.hobbies[i]));
        assert(b.subrange(74 + 54 * i, 74 + 54 * i + 4) =~= spec_u32_to_le_bytes(
            v.hobbies[i].len() as u32,
        ));
        assert(spec_hobby_len(b, i) == v.hobbies[i].len());
        let a0 = 74 + 54 * i;
        let slot = spec_slot(v.hobbies[i]);
        assert(padded(v.hobbies[i], MAX_HOBBY_BYTES as nat).len() == 50);
        assert forall|t: int| 0 <= t < v.hobbies[i].len() implies b[a0 + 4 + t]
            == v.hobbies[i][t] by {
            assert(b.subrange(a0, a0 + 54)[4 + t] == slot[4 + t]);
            assert(slot[4 + t] == padded(v.hobbies[i], MAX_HOBBY_BYTES as nat)[t]);
        }
        assert(b.subrange(74 + 54 * i + 4, 74 + 54 * i + 4 + v.hobbies[i].len())
            =~= v.hobbies[i]);
    }
    assert(well_formed(b));
    assert(spec_decode(b).hobbies =~= v.hobbies);
    assert(spec_decode(b) =~= v);
}

/// Decodes a buffer written by this codec.
///
/// Succeeds exactly on well-formed buffers — full size, the right tag, every
/// declared length within bounds — and then returns the record the buffer
/// holds; anything else is rejected as `EncodingError`, never a panic.
pub fn decode(buf: &Vec<u8>) -> (r: Result<Favorites, ErrorKind>)
    ensures
        well_formed(buf@) ==> (r matches Ok(rec) && rec@ == spec_decode(buf@)),
        !well_formed(buf@) ==> r == Err::<Favorites, ErrorKind>(ErrorKind::EncodingError),
{
    if buf.len() != RECORD_SPACE {
        return Err(ErrorKind::EncodingError);
    }
    let mut j: usize = 0;
    while j < DISCRIMINATOR_LEN
        invariant
            j <= DISCRIMINATOR_LEN,
            buf@.len() == RECORD_SPACE,
            forall|t: int| 0 <= t < j ==> buf@[t] == spec_discriminator()[t],
        decreases DISCRIMINATOR_LEN - j,
    {
        let expected: u8 = if j == 0 {
            0x2c
        } else if j == 1 {
            0xcd
        } else if j == 2 {
            0x30
        } else if j == 3 {
            0x19
        } else if j == 4 {
            0xac
        } else if j == 5 {
            0x60
        } else if j == 6 {
            0x30
        } else {
            0x1b
        };
        if buf[j] != expected {
            proof {
                assert(buf@.subrange(0, 8)[j as int] == buf@[j as int]);
                assert(buf@.subrange(0, 8) != spec_discriminator());
            }
            return Err(ErrorKind::EncodingError);
        }
        j += 1;
    }
    proof {
        assert(buf@.subrange(0, 8) =~= spec_discriminator());
    }
    let number = u64_from_le_bytes(slice_subrange(buf.as_slice(), 8, 16));
    let color_len = u32_from_le_bytes(slice_subrange(buf.as_slice(), 16, 20)) as usize;
    if color_len > MAX_COLOR_BYTES {
        return Err(ErrorKind::EncodingError);
    }
    let mut color: Vec<u8> = Vec::new();
    let mut k: usize = 0;
    while k < color_len
        invariant
            k <= color_len,
            color_len <= MAX_COLOR_BYTES,
            buf@.len() == RECORD_SPACE,
            color@ == buf@.subrange(20, 20 + k as int),
        decreases color_len - k,
    {
        color.push(buf[20 + k]);
        proof {
            assert(buf@.subrange(20, 20 + k as int) + seq![buf@[20 + k as int]] =~= buf@.subrange(
                20,
                20 + k as int + 1,
            ));
        }
        k += 1;
    }
    let count = u32_from_le_bytes(slice_subrange(buf.as_slice(), 70, 74)) as usize;
    if count > MAX_HOBBIES {
        return Err(ErrorKind::EncodingError);
    }
    let mut hobbies: Vec<Vec<u8>> = Vec::new();
    let mut i: usize = 0;
    while i < count
        invariant
            i <= count,
            count == spec_hobby_count(buf@),
            count <= MAX_HOBBIES,
            buf@.len() == RECORD_SPACE,
            hobbies@.len() == i,
            forall|t: int| 0 <= t < i ==> #[trigger] spec_hobby_len(buf@, t) <= MAX_HOBBY_BYTES,
            forall|t: int| 0 <= t < i ==> (#[trigger] hobbies@[t])@ == buf@.subrange(
                74 + 54 * t + 4,
                74 + 54 * t + 4 + spec_hobby_len(buf@, t),
            ),
        decreases count - i,
    {
        let off: usize = 74 + 54 * i;
        let hlen = u32_from_le_bytes(slice_subrange(buf.as_slice(), off, off + 4)) as usize;
        proof {
            assert(spec_hobby_len(buf@, i as int) == hlen as int);
        }
        if hlen > MAX_HOBBY_BYTES {
            proof {
                assert((i as int) < spec_hobby_count(buf@));
                assert(spec_hobby_len(buf@, i as int) > MAX_HOBBY_BYTES);
            }
            return Err(ErrorKind::EncodingError);
        }
        let mut h: Vec<u8> = Vec::new();
        let mut k2: usize = 0;
        while k2 < hlen
            invariant
                k2 <= hlen,
                hlen <= MAX_HOBBY_BYTES,
                off == 74 + 54 * i,
                i < count <= MAX_HOBBIES,
                buf@.len() == RECORD_SPACE,
                h@ == buf@.subrange(off + 4, off + 4 + k2 as int),
            decreases hlen - k2,
        {
            h.push(buf[off + 4 + k2]);
            proof {
                assert(buf@.subrange(off + 4, off + 4 + k2 as int) + seq![
                    buf@[off + 4 + k2 as int],
                ] =~= buf@.subrange(off + 4, off + 4 + k2 as int + 1));
            }
            k2 += 1;
        }
        hobbies.push(h);
        i += 1;
    }
    let rec = Favorites { number, color, hobbies };
    proof {
        assert(well_formed(buf@));
        assert(rec@.color == buf@.subrange(20, 20 + spec_color_len(buf@)));
        assert(rec@.hobbies =~= spec_decode(buf@).hobbies);
        assert(rec@ == spec_decode(buf@));
    }
    Ok(rec)
}

} // verus!
