#![allow(non_snake_case)]
#![allow(non_camel_case_types)]

use crate::protocol::msg::OFFSET_PARAM1;
use crate::protocol::msg::OFFSET_PARAM2;
use crate::protocol::msg::OFFSET_REQUEST_RESPONSE_CODE;
use crate::protocol::msg::OFFSET_SPDM_VERSION;
use crate::utils::dec_n_len;
use crate::utils::dec_n_ok;
use crate::utils::dec_n_rel;
use crate::utils::dec_n_req;
use crate::utils::enc_n;
use crate::utils::lemma_u16_split;
use crate::utils::u16_hi;
use crate::utils::u16_lo;
use crate::utils::u16_of;
use crate::utils::Bytes;
use crate::utils::Reader;
use crate::utils::Writer;
use vstd::prelude::*;

verus! {

/// The protocol ceiling on the number of version entries in one VERSION
/// response.
pub const MAX_VERSION_NUMBER_ENTRY: usize = 10;

/// Byte offset of the reserved byte of a VERSION message.
pub const OFFSET_RESERVED: usize = 4;

/// Byte offset of the entry-count byte of a VERSION message.
pub const OFFSET_VERSION_NUMBER_ENTRY_COUNT: usize = 5;

/// Byte offset of the first version entry of a VERSION message.
pub const OFFSET_VERSION_NUMBER_ENTRY_1_N: usize = 6;

/// The major-version nibble, bits 15 down to 12.
pub open spec fn major_of(v: u16) -> u8 {
    ((v >> 12) & 0xf) as u8
}

/// The minor-version nibble, bits 11 down to 8.
pub open spec fn minor_of(v: u16) -> u8 {
    ((v >> 8) & 0xf) as u8
}

/// The update-version nibble, bits 7 down to 4.
pub open spec fn update_of(v: u16) -> u8 {
    ((v >> 4) & 0xf) as u8
}

/// The alpha nibble, bits 3 down to 0.
pub open spec fn alpha_of(v: u16) -> u8 {
    (v & 0xf) as u8
}

/// Extracting the four nibbles of a version entry loses nothing: packing
/// them back most-significant-first reproduces the raw 16-bit value.
pub proof fn lemma_entry_fields_lossless(v: u16)
    ensures
        major_of(v) * 0x1000 + minor_of(v) * 0x100 + update_of(v) * 0x10 + alpha_of(v) == v,
{
    assert((((v >> 12) & 0xf) as u8) * 0x1000 + (((v >> 8) & 0xf) as u8) * 0x100 + (((v >> 4)
        & 0xf) as u8) * 0x10 + ((v & 0xf) as u8) == v) by (bit_vector);
}

/// A packed 16-bit protocol version: four 4-bit fields, major version in the
/// most significant nibble, alpha in the least.
#[derive(Clone, Copy, Debug, PartialEq, Eq, Structural)]
pub struct VersionNumberEntry(pub u16);

impl Default for VersionNumberEntry {
    fn default() -> (r: Self)
        ensures
            r.0 == 0,
    {
        VersionNumberEntry(0)
    }
}

impl VersionNumberEntry {
    /// The major-version field, bits 15 down to 12.
    pub fn MajorVersion(&self) -> (r: u8)
        ensures
            r == major_of(self.0),
    {
        proof {
            lemma_get_bits_nibble(self.0);
        }
        Self::get_bits(self.0, 12, 15)
    }

    /// The minor-version field, bits 11 down to 8.
    pub fn MinorVersion(&self) -> (r: u8)
        ensures
            r == minor_of(self.0),
    {
        proof {
            lemma_get_bits_nibble(self.0);
        }
        Self::get_bits(self.0, 8, 11)
    }

    /// The update-version field, bits 7 down to 4.
    pub fn UpdateVersionNumber(&self) -> (r: u8)
        ensures
            r == update_of(self.0),
    {
        proof {
            lemma_get_bits_nibble(self.0);
        }
        Self::get_bits(self.0, 4, 7)
    }

    /// The alpha field, bits 3 down to 0.
    pub fn Alpha(&self) -> (r: u8)
        ensures
            r == alpha_of(self.0),
    {
        proof {
            lemma_get_bits_nibble(self.0);
        }
        Self::get_bits(self.0, 0, 3)
    }

    /// The bits of `value` from `start` up to and including `end`, shifted
    /// down to the low end.
    fn get_bits(value: u16, start: usize, end: usize) -> (r: u8)
        requires
            start <= end,
            end < 16,
            end - start < 8,
        ensures
            r == ((value >> (start as u16)) & (((1u16 << ((end - start + 1) as u16)) - 1) as u16)) as u8,
    {
        let shift: usize = 16 - (end + 1);
        let masked: u16 = (value << shift) >> shift;
        let shifted: u16 = masked >> start;
        proof {
            let s16: u16 = start as u16;
            let e16: u16 = end as u16;
            let sh16: u16 = shift as u16;
            assert((((value << sh16) >> sh16) >> s16) == ((value >> s16) & (((1u16 << ((e16 - s16 + 1) as u16)) - 1) as u16)) && (((value << sh16) >> sh16) >> s16) < 256) by (bit_vector)
                requires
                    s16 <= e16,
                    e16 < 16,
                    e16 - s16 < 8,
                    sh16 == 15 - e16,
            ;
        }
        shifted as u8
    }
}

/// For the four nibble spans, the masked extraction equals the plain
/// shift-and-mask form of the field specs.
proof fn lemma_get_bits_nibble(v: u16)
    ensures
        ((v >> 12u16) & (((1u16 << 4u16) - 1) as u16)) as u8 == major_of(v),
        ((v >> 8u16) & (((1u16 << 4u16) - 1) as u16)) as u8 == minor_of(v),
        ((v >> 4u16) & (((1u16 << 4u16) - 1) as u16)) as u8 == update_of(v),
        ((v >> 0u16) & (((1u16 << 4u16) - 1) as u16)) as u8 == alpha_of(v),
{
    assert(((v >> 12u16) & (((1u16 << 4u16) - 1) as u16)) as u8 == ((v >> 12) & 0xf) as u8) by (bit_vector);
    assert(((v >> 8u16) & (((1u16 << 4u16) - 1) as u16)) as u8 == ((v >> 8) & 0xf) as u8) by (bit_vector);
    assert(((v >> 4u16) & (((1u16 << 4u16) - 1) as u16)) as u8 == ((v >> 4) & 0xf) as u8) by (bit_vector);
    assert(((v >> 0u16) & (((1u16 << 4u16) - 1) as u16)) as u8 == (v & 0xf) as u8) by (bit_vector);
}

impl Bytes for VersionNumberEntry {
    open spec fn wf(&self) -> bool {
        true
    }

    open spec fn enc(&self) -> Seq<u8> {
        seq![u16_lo(self.0), u16_hi(self.0)]
    }

    open spec fn dec_ok(bytes: Seq<u8>) -> bool {
        bytes.len() >= 2
    }

    open spec fn dec_len(bytes: Seq<u8>) -> nat {
        2
    }

    open spec fn dec_req(bytes: Seq<u8>) -> nat {
        2
    }

    open spec fn dec_rel(bytes: Seq<u8>, v: Self) -> bool {
        v.0 == u16_of(bytes[0], bytes[1])
    }

    proof fn lemma_dec_len_bound(bytes: Seq<u8>) {
    }

    fn from_bytes(&mut self, bytes: &[u8]) -> (r: Result<usize, usize>) {
        self.0.from_bytes(bytes)
    }

    fn to_bytes(&self, bytes: &mut [u8]) -> (r: Result<usize, usize>) {
        self.0.to_bytes(bytes)
    }
}

/// Decoding a run of version entries needs exactly two bytes per entry.
pub proof fn lemma_entry_dec_n(s: Seq<u8>, count: nat)
    ensures
        s.len() >= 2 * count ==> dec_n_ok::<VersionNumberEntry>(s, count) && dec_n_len::<
            VersionNumberEntry,
        >(s, count) == 2 * count,
        s.len() < 2 * count ==> !dec_n_ok::<VersionNumberEntry>(s, count),
        dec_n_req::<VersionNumberEntry>(s, count) <= 2 * count,
    decreases count,
{
    if count > 0 {
        lemma_entry_dec_n(s.skip(2), (count - 1) as nat);
    }
}

/// The values a run of entries decodes to are the little-endian pairs of the
/// buffer, in order.
pub proof fn lemma_entry_dec_rel_index(s: Seq<u8>, count: nat, vs: Seq<VersionNumberEntry>)
    requires
        s.len() >= 2 * count,
        vs.len() >= count,
        dec_n_rel::<VersionNumberEntry>(s, count, vs),
    ensures
        forall|i: int| 0 <= i < count ==> vs[i].0 == u16_of(s[2 * i], s[2 * i + 1]),
    decreases count,
{
    if count > 0 {
        assert(vs[0].0 == u16_of(s[0], s[1]));
        lemma_entry_dec_rel_index(s.skip(2), (count - 1) as nat, vs.skip(1));
        assert forall|i: int| 1 <= i < count implies vs[i].0 == u16_of(s[2 * i], s[2 * i + 1]) by {
            assert(vs.skip(1)[i - 1].0 == u16_of(s.skip(2)[2 * (i - 1)], s.skip(2)[2 * (i - 1)
                + 1]));
        }
    }
}

/// The encoding of a run of entries is their little-endian pairs, in order.
pub proof fn lemma_entry_enc_n(vs: Seq<VersionNumberEntry>)
    ensures
        enc_n(vs).len() == 2 * vs.len(),
        forall|i: int|
            0 <= i < vs.len() ==> enc_n(vs)[2 * i] == u16_lo(#[trigger] vs[i].0) && enc_n(vs)[2 * i
                + 1] == u16_hi(vs[i].0),
    decreases vs.len(),
{
    if vs.len() > 0 {
        lemma_entry_enc_n(vs.skip(1));
        assert(enc_n(vs) == vs[0].enc() + enc_n(vs.skip(1)));
        assert forall|i: int|
            0 <= i < vs.len() implies enc_n(vs)[2 * i] == u16_lo(#[trigger] vs[i].0) && enc_n(
            vs,
        )[2 * i + 1] == u16_hi(vs[i].0) by {
            if i > 0 {
                assert(enc_n(vs.skip(1))[2 * (i - 1)] == u16_lo(vs.skip(1)[i - 1].0));
                assert(enc_n(vs.skip(1))[2 * (i - 1) + 1] == u16_hi(vs.skip(1)[i - 1].0));
                assert(vs.skip(1)[i - 1] == vs[i]);
            }
        }
    }
}

/// The little-endian bytes of a run of version entries.
pub open spec fn entries_bytes(vs: Seq<VersionNumberEntry>) -> Seq<u8>
    decreases vs.len(),
{
    if vs.len() == 0 {
        Seq::empty()
    } else {
        seq![u16_lo(vs[0].0), u16_hi(vs[0].0)] + entries_bytes(vs.skip(1))
    }
}

/// `entries_bytes` agrees with the generic concatenated encoding.
pub proof fn lemma_entries_bytes_is_enc_n(vs: Seq<VersionNumberEntry>)
    ensures
        entries_bytes(vs) == enc_n(vs),
    decreases vs.len(),
{
    if vs.len() > 0 {
        lemma_entries_bytes_is_enc_n(vs.skip(1));
    }
}

/// The VERSION response: the 4-byte header, a reserved byte, an entry count,
/// and up to `MAX_VERSION_NUMBER_ENTRY` packed version entries.
#[derive(Clone, Copy, Debug)]
#[verifier::ext_equal]
pub struct VERSION {
    pub SPDMVersion: u8,
    pub RequestResponseCode: u8,
    pub Param1: u8,
    pub Param2: u8,
    pub VersionNumberEntryCount: u8,
    pub VersionNumberEntry1_n: [VersionNumberEntry; MAX_VERSION_NUMBER_ENTRY],
}

impl Default for VERSION {
    /// An empty VERSION response: version 1.0, opcode 0x04, no entries.
    fn default() -> (r: Self)
        ensures
            r.SPDMVersion == 0x10,
            r.RequestResponseCode == 0x04,
            r.Param1 == 0,
            r.Param2 == 0,
            r.VersionNumberEntryCount == 0,
            forall|i: int| 0 <= i < MAX_VERSION_NUMBER_ENTRY ==> r.VersionNumberEntry1_n@[i].0 == 0,
    {
        Self {
            SPDMVersion: 0x10,
            RequestResponseCode: 0x04,
            Param1: 0,
            Param2: 0,
            VersionNumberEntryCount: 0,
            VersionNumberEntry1_n: vstd::array::array_fill_for_copy_types(VersionNumberEntry(0)),
        }
    }
}

impl Bytes for VERSION {
    open spec fn wf(&self) -> bool {
        self.VersionNumberEntryCount <= MAX_VERSION_NUMBER_ENTRY
    }

    open spec fn enc(&self) -> Seq<u8> {
        seq![
            self.SPDMVersion,
            self.RequestResponseCode,
            self.Param1,
            self.Param2,
            0u8,
            self.VersionNumberEntryCount,
        ] + entries_bytes(self.VersionNumberEntry1_n@.take(self.VersionNumberEntryCount as int))
    }

    open spec fn dec_ok(bytes: Seq<u8>) -> bool {
        &&& bytes.len() >= 6
        &&& bytes[5] <= MAX_VERSION_NUMBER_ENTRY
        &&& bytes.len() >= 6 + 2 * bytes[5]
    }

    open spec fn dec_len(bytes: Seq<u8>) -> nat {
        (6 + 2 * bytes[5]) as nat
    }

    open spec fn dec_req(bytes: Seq<u8>) -> nat {
        if bytes.len() < 6 {
            6
        } else {
            (6 + 2 * bytes[5]) as nat
        }
    }

    open spec fn dec_rel(bytes: Seq<u8>, v: Self) -> bool {
        &&& v.SPDMVersion == bytes[0]
        &&& v.RequestResponseCode == bytes[1]
        &&& v.Param1 == bytes[2]
        &&& v.Param2 == bytes[3]
        &&& v.VersionNumberEntryCount == bytes[5]
        &&& forall|i: int|
            0 <= i < bytes[5] ==> (#[trigger] v.VersionNumberEntry1_n@[i]).0 == u16_of(
                bytes[6 + 2 * i],
                bytes[7 + 2 * i],
            )
        &&& forall|i: int|
            bytes[5] <= i < MAX_VERSION_NUMBER_ENTRY ==> (#[trigger] v.VersionNumberEntry1_n@[i]).0
                == 0
    }

    proof fn lemma_dec_len_bound(bytes: Seq<u8>) {
    }

    fn from_bytes(&mut self, bytes: &[u8]) -> (r: Result<usize, usize>) {
        let bytes_len = bytes.len();
        if bytes_len < OFFSET_VERSION_NUMBER_ENTRY_1_N {
            return Err(OFFSET_VERSION_NUMBER_ENTRY_1_N);
        }
        let reader = Reader::init(bytes);
        let (v0, _) = reader.read::<u8>(OFFSET_SPDM_VERSION).unwrap();
        let (v1, _) = reader.read::<u8>(OFFSET_REQUEST_RESPONSE_CODE).unwrap();
        let (v2, _) = reader.read::<u8>(OFFSET_PARAM1).unwrap();
        let (v3, _) = reader.read::<u8>(OFFSET_PARAM2).unwrap();
        let (cnt, _) = reader.read::<u8>(OFFSET_VERSION_NUMBER_ENTRY_COUNT).unwrap();
        let count = cnt as usize;
        let need = OFFSET_VERSION_NUMBER_ENTRY_1_N + 2 * count;
        if count > MAX_VERSION_NUMBER_ENTRY || bytes_len < need {
            return Err(need);
        }
        proof {
            lemma_entry_dec_n(bytes@.skip(6), count as nat);
        }
        let (entries, entries_size) = reader.read_n::<
            VersionNumberEntry,
            MAX_VERSION_NUMBER_ENTRY,
        >(OFFSET_VERSION_NUMBER_ENTRY_1_N, count).unwrap();
        self.SPDMVersion = v0;
        self.RequestResponseCode = v1;
        self.Param1 = v2;
        self.Param2 = v3;
        self.VersionNumberEntryCount = cnt;
        self.VersionNumberEntry1_n = entries;
        proof {
            let s6 = bytes@.skip(6);
            lemma_entry_dec_rel_index(s6, count as nat, entries@);
            assert forall|i: int| 0 <= i < bytes@[5] implies (#[trigger] entries@[i]).0 == u16_of(
                bytes@[6 + 2 * i],
                bytes@[7 + 2 * i],
            ) by {
                assert(entries@[i].0 == u16_of(s6[2 * i], s6[2 * i + 1]));
            }
            assert forall|i: int|
                bytes@[5] <= i < MAX_VERSION_NUMBER_ENTRY implies (#[trigger] entries@[i]).0
                == 0 by {
                assert(call_ensures(VersionNumberEntry::default, (), entries@[i]));
            }
        }
        Ok(OFFSET_VERSION_NUMBER_ENTRY_1_N + entries_size)
    }

    fn to_bytes(&self, bytes: &mut [u8]) -> (r: Result<usize, usize>) {
        let bytes_len = bytes.len();
        let count = self.VersionNumberEntryCount as usize;
        let ghost taken = self.VersionNumberEntry1_n@.take(count as int);
        proof {
            lemma_entry_enc_n(taken);
            lemma_entries_bytes_is_enc_n(taken);
        }
        let need = OFFSET_VERSION_NUMBER_ENTRY_1_N + 2 * count;
        if bytes_len < need {
            return Err(need);
        }
        let mut writer = Writer::init(bytes);
        let ghost g0: Seq<u8> = writer.buf@;
        writer.write(&self.SPDMVersion, OFFSET_SPDM_VERSION).unwrap();
        let ghost g1: Seq<u8> = writer.buf@;
        writer.write(&self.RequestResponseCode, OFFSET_REQUEST_RESPONSE_CODE).unwrap();
        let ghost g2: Seq<u8> = writer.buf@;
        writer.write(&self.Param1, OFFSET_PARAM1).unwrap();
        let ghost g3: Seq<u8> = writer.buf@;
        writer.write(&self.Param2, OFFSET_PARAM2).unwrap();
        let ghost g4: Seq<u8> = writer.buf@;
        writer.write(&0u8, OFFSET_RESERVED).unwrap();
        let ghost g5: Seq<u8> = writer.buf@;
        writer.write(&self.VersionNumberEntryCount, OFFSET_VERSION_NUMBER_ENTRY_COUNT).unwrap();
        let ghost g6: Seq<u8> = writer.buf@;
        let arr_slice: &[VersionNumberEntry] = self.VersionNumberEntry1_n.as_slice();
        let entry_slice = vstd::slice::slice_subrange(arr_slice, 0, count);
        proof {
            assert(entry_slice@ =~= taken);
        }
        let result = writer.write_n(entry_slice, OFFSET_VERSION_NUMBER_ENTRY_1_N).unwrap();
        let ghost g7: Seq<u8> = writer.buf@;
        proof {
            assert(g1.subrange(0, 1)[0] == self.SPDMVersion);
            assert(g2.subrange(1, 2)[0] == self.RequestResponseCode);
            assert(g3.subrange(2, 3)[0] == self.Param1);
            assert(g4.subrange(3, 4)[0] == self.Param2);
            assert(g5.subrange(4, 5)[0] == 0u8);
            assert(g6.subrange(5, 6)[0] == self.VersionNumberEntryCount);
            assert(g2.subrange(0, 1)[0] == g1.subrange(0, 1)[0]);
            assert forall|i: int| 0 <= i < 2 implies g3.subrange(0, 2)[i] == g2.subrange(
                0,
                2,
            )[i] by {}
            assert forall|i: int| 0 <= i < 3 implies g4.subrange(0, 3)[i] == g3.subrange(
                0,
                3,
            )[i] by {}
            assert forall|i: int| 0 <= i < 4 implies g5.subrange(0, 4)[i] == g4.subrange(
                0,
                4,
            )[i] by {}
            assert forall|i: int| 0 <= i < 5 implies g6.subrange(0, 5)[i] == g5.subrange(
                0,
                5,
            )[i] by {}
            if count > 0 {
                assert forall|i: int| 0 <= i < 6 implies g7.subrange(0, 6)[i] == g6.subrange(
                    0,
                    6,
                )[i] by {}
                assert(g7.subrange(6, (6 + 2 * count) as int) == enc_n(taken));
            } else {
                assert(g7 == g6);
                assert(enc_n(taken) =~= Seq::<u8>::empty());
            }
            assert forall|i: int| 0 <= i < 6 + 2 * count implies g7[i] == self.enc()[i] by {
                if i < 6 {
                    assert(g7.subrange(0, 6)[i] == g6.subrange(0, 6)[i]) by {
                        if count == 0 {
                            assert(g7 == g6);
                        }
                    }
                } else {
                    assert(g7.subrange(6, (6 + 2 * count) as int)[i - 6] == enc_n(taken)[i - 6]);
                }
            }
            assert forall|i: int| 6 + 2 * count <= i < g0.len() implies g7[i] == g0[i] by {
                assert(g1.skip(1)[i - 1] == g0.skip(1)[i - 1]);
                assert(g2.skip(2)[i - 2] == g1.skip(2)[i - 2]);
                assert(g3.skip(3)[i - 3] == g2.skip(3)[i - 3]);
                assert(g4.skip(4)[i - 4] == g3.skip(4)[i - 4]);
                assert(g5.skip(5)[i - 5] == g4.skip(5)[i - 5]);
                assert(g6.skip(6)[i - 6] == g5.skip(6)[i - 6]);
                if count > 0 {
                    assert(g7.skip((6 + 2 * count) as int)[i - 6 - 2 * count] == g6.skip(
                        (6 + 2 * count) as int,
                    )[i - 6 - 2 * count]);
                } else {
                    assert(g7 == g6);
                }
            }
            assert(has_resolved(writer));
            assert(final(bytes)@ == g7);
            assert(final(bytes)@.subrange(0, (6 + 2 * count) as int) =~= self.enc());
            assert(final(bytes)@.skip((6 + 2 * count) as int) =~= old(bytes)@.skip(
                (6 + 2 * count) as int,
            ));
        }
        Ok(result + OFFSET_VERSION_NUMBER_ENTRY_1_N)
    }
}

/// Law: encoding a well-formed VERSION value and decoding the result gives
/// back the same value, field for field.  Entries past the count are not on
/// the wire, so the law speaks of values whose trailing entries are zero,
/// as decoding leaves them.
pub proof fn lemma_version_round_trip(v: VERSION)
    requires
        v.wf(),
        forall|i: int|
            v.VersionNumberEntryCount <= i < MAX_VERSION_NUMBER_ENTRY ==> (
            #[trigger] v.VersionNumberEntry1_n@[i]).0 == 0,
    ensures
        VERSION::dec_ok(v.enc()),
        VERSION::dec_len(v.enc()) == v.enc().len(),
        forall|w: VERSION| VERSION::dec_rel(v.enc(), w) ==> w == v,
{
    let count = v.VersionNumberEntryCount as int;
    let taken = v.VersionNumberEntry1_n@.take(count);
    let b = v.enc();
    lemma_entries_bytes_is_enc_n(taken);
    lemma_entry_enc_n(taken);
    assert(b.len() == 6 + 2 * count);
    assert(b[5] == v.VersionNumberEntryCount);
    assert forall|i: int| 0 <= i < count implies b[6 + 2 * i] == u16_lo(
        #[trigger] v.VersionNumberEntry1_n@[i].0,
    ) && b[7 + 2 * i] == u16_hi(v.VersionNumberEntry1_n@[i].0) by {
        assert(enc_n(taken)[2 * i] == u16_lo(taken[i].0));
        assert(enc_n(taken)[2 * i + 1] == u16_hi(taken[i].0));
        assert(taken[i] == v.VersionNumberEntry1_n@[i]);
    }
    assert forall|w: VERSION| VERSION::dec_rel(b, w) implies w == v by {
        assert forall|i: int| 0 <= i < MAX_VERSION_NUMBER_ENTRY implies (
        #[trigger] w.VersionNumberEntry1_n@[i]) == v.VersionNumberEntry1_n@[i] by {
            if i < count {
                lemma_u16_split(v.VersionNumberEntry1_n@[i].0);
                assert(w.VersionNumberEntry1_n@[i].0 == u16_of(b[6 + 2 * i], b[7 + 2 * i]));
            } else {
                assert(w.VersionNumberEntry1_n@[i].0 == 0);
            }
        }
        assert(w.VersionNumberEntry1_n@ =~= v.VersionNumberEntry1_n@);
        assert(w.VersionNumberEntry1_n =~= v.VersionNumberEntry1_n);
        assert(w =~= v);
    }
}

} // verus!
