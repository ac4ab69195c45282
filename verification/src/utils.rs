use vstd::prelude::*;

verus! {

/// A value with a fixed little-endian wire layout.
pub trait Bytes: Sized {
    /// Values that may be encoded.
    spec fn wf(&self) -> bool;

    /// The wire encoding of the value.
    spec fn enc(&self) -> Seq<u8>;

    /// Whether `bytes` starts with a complete encoding.
    spec fn dec_ok(bytes: Seq<u8>) -> bool;

    /// Bytes consumed by a successful decode.
    spec fn dec_len(bytes: Seq<u8>) -> nat;

    /// Minimum length, from the start of `bytes`, reported by a failed decode.
    spec fn dec_req(bytes: Seq<u8>) -> nat;

    /// Relates a buffer to the value its prefix decodes to.
    spec fn dec_rel(bytes: Seq<u8>, v: Self) -> bool;

    /// A successful decode never consumes more bytes than the buffer holds.
    proof fn lemma_dec_len_bound(bytes: Seq<u8>)
        ensures
            Self::dec_ok(bytes) ==> Self::dec_len(bytes) <= bytes.len(),
    ;

    /// Read `Self` from `bytes`.
    /// Returns `Ok(number of bytes read)` or `Err(required number of bytes)`.
    fn from_bytes(&mut self, bytes: &[u8]) -> (r: Result<usize, usize>)
        ensures
            match r {
                Ok(n) => {
                    &&& Self::dec_ok(bytes@)
                    &&& n == Self::dec_len(bytes@)
                    &&& n <= bytes@.len()
                    &&& Self::dec_rel(bytes@, *final(self))
                },
                Err(req) => {
                    &&& !Self::dec_ok(bytes@)
                    &&& req == Self::dec_req(bytes@)
                    &&& *final(self) == *old(self)
                },
            },
    ;

    /// Write `self` to `bytes`.
    /// Returns `Ok(number of bytes written)` or `Err(required number of bytes)`.
    fn to_bytes(&self, bytes: &mut [u8]) -> (r: Result<usize, usize>)
        requires
            self.wf(),
        ensures
            final(bytes)@.len() == old(bytes)@.len(),
            match r {
                Ok(n) => {
                    &&& n == self.enc().len()
                    &&& n <= old(bytes)@.len()
                    &&& final(bytes)@.subrange(0, n as int) == self.enc()
                    &&& final(bytes)@.skip(n as int) == old(bytes)@.skip(n as int)
                },
                Err(req) => {
                    &&& req == self.enc().len()
                    &&& req > old(bytes)@.len()
                    &&& final(bytes)@ == old(bytes)@
                },
            },
    ;
}

impl Bytes for u8 {
    open spec fn wf(&self) -> bool {
        true
    }

    open spec fn enc(&self) -> Seq<u8> {
        seq![*self]
    }

    open spec fn dec_ok(bytes: Seq<u8>) -> bool {
        bytes.len() >= 1
    }

    open spec fn dec_len(bytes: Seq<u8>) -> nat {
        1
    }

    open spec fn dec_req(bytes: Seq<u8>) -> nat {
        1
    }

    open spec fn dec_rel(bytes: Seq<u8>, v: Self) -> bool {
        v == bytes[0]
    }

    proof fn lemma_dec_len_bound(bytes: Seq<u8>) {
    }

    fn from_bytes(&mut self, bytes: &[u8]) -> (r: Result<usize, usize>) {
        if bytes.len() < 1 {
            Err(1)
        } else {
            *self = bytes[0];
            Ok(1)
        }
    }

    fn to_bytes(&self, bytes: &mut [u8]) -> (r: Result<usize, usize>) {
        if bytes.len() < 1 {
            Err(1)
        } else {
            bytes[0] = *self;
            assert(final(bytes)@.subrange(0, 1) =~= self.enc());
            assert(final(bytes)@.skip(1) =~= old(bytes)@.skip(1));
            Ok(1)
        }
    }
}

/// The low byte of a 16-bit value.
pub open spec fn u16_lo(v: u16) -> u8 {
    (v & 0xff) as u8
}

/// The high byte of a 16-bit value.
pub open spec fn u16_hi(v: u16) -> u8 {
    ((v >> 8) & 0xff) as u8
}

/// The 16-bit value laid out little-endian as `lo` then `hi`.
pub open spec fn u16_of(lo: u8, hi: u8) -> u16 {
    (lo + hi * 0x100) as u16
}

/// The 32-bit value laid out little-endian as `b0` through `b3`.
pub open spec fn u32_of(b0: u8, b1: u8, b2: u8, b3: u8) -> u32 {
    (b0 + b1 * 0x100 + b2 * 0x1_0000 + b3 * 0x100_0000) as u32
}

/// Splitting a 16-bit value into its little-endian bytes loses nothing.
pub proof fn lemma_u16_split(v: u16)
    ensures
        u16_of(u16_lo(v), u16_hi(v)) == v,
{
    assert(((v & 0xff) as u8) + (((v >> 8) & 0xff) as u8) * 0x100 == v) by (bit_vector);
}

impl Bytes for u16 {
    open spec fn wf(&self) -> bool {
        true
    }

    open spec fn enc(&self) -> Seq<u8> {
        seq![u16_lo(*self), u16_hi(*self)]
    }

    open spec fn dec_ok(bytes: Seq<u8>) -> bool {
        bytes.len() >= 2
    }

    open spec fn dec_len(bytes: Seq<u8>) -> nat {
        2
    }

    open spec fn dec_req(bytes: Seq<u8>) -> nat {
        2
    }

    open spec fn dec_rel(bytes: Seq<u8>, v: Self) -> bool {
        v == u16_of(bytes[0], bytes[1])
    }

    proof fn lemma_dec_len_bound(bytes: Seq<u8>) {
    }

    fn from_bytes(&mut self, bytes: &[u8]) -> (r: Result<usize, usize>) {
        if bytes.len() < 2 {
            Err(2)
        } else {
            let b0 = bytes[0];
            let b1 = bytes[1];
            let v = (b0 as u16) | ((b1 as u16) << 8);
            proof {
                assert(v == (b0 + b1 * 0x100) as u16) by (bit_vector)
                    requires
                        v == (b0 as u16) | ((b1 as u16) << 8),
                ;
                assert(v == u16_of(bytes@[0], bytes@[1]));
            }
            *self = v;
            Ok(2)
        }
    }

    fn to_bytes(&self, bytes: &mut [u8]) -> (r: Result<usize, usize>) {
        if bytes.len() < 2 {
            Err(2)
        } else {
            bytes[0] = (*self & 0xff) as u8;
            bytes[1] = ((*self >> 8) & 0xff) as u8;
            assert(final(bytes)@.subrange(0, 2) =~= self.enc());
            assert(final(bytes)@.skip(2) =~= old(bytes)@.skip(2));
            Ok(2)
        }
    }
}

impl Bytes for u32 {
    open spec fn wf(&self) -> bool {
        true
    }

    open spec fn enc(&self) -> Seq<u8> {
        seq![
            (*self & 0xff) as u8,
            ((*self >> 8) & 0xff) as u8,
            ((*self >> 16) & 0xff) as u8,
            ((*self >> 24) & 0xff) as u8,
        ]
    }

    open spec fn dec_ok(bytes: Seq<u8>) -> bool {
        bytes.len() >= 4
    }

    open spec fn dec_len(bytes: Seq<u8>) -> nat {
        4
    }

    open spec fn dec_req(bytes: Seq<u8>) -> nat {
        4
    }

    open spec fn dec_rel(bytes: Seq<u8>, v: Self) -> bool {
        v == u32_of(bytes[0], bytes[1], bytes[2], bytes[3])
    }

    proof fn lemma_dec_len_bound(bytes: Seq<u8>) {
    }

    fn from_bytes(&mut self, bytes: &[u8]) -> (r: Result<usize, usize>) {
        if bytes.len() < 4 {
            Err(4)
        } else {
            let b0 = bytes[0];
            let b1 = bytes[1];
            let b2 = bytes[2];
            let b3 = bytes[3];
            let v = (b0 as u32) | ((b1 as u32) << 8) | ((b2 as u32) << 16) | ((b3 as u32) << 24);
            proof {
                assert(v == (b0 + b1 * 0x100 + b2 * 0x1_0000 + b3 * 0x100_0000) as u32)
                    by (bit_vector)
                    requires
                        v == (b0 as u32) | ((b1 as u32) << 8) | ((b2 as u32) << 16) | ((b3
                            as u32) << 24),
                ;
                assert(v == u32_of(bytes@[0], bytes@[1], bytes@[2], bytes@[3]));
            }
            *self = v;
            Ok(4)
        }
    }

    fn to_bytes(&self, bytes: &mut [u8]) -> (r: Result<usize, usize>) {
        if bytes.len() < 4 {
            Err(4)
        } else {
            bytes[0] = (*self & 0xff) as u8;
            bytes[1] = ((*self >> 8) & 0xff) as u8;
            bytes[2] = ((*self >> 16) & 0xff) as u8;
            bytes[3] = ((*self >> 24) & 0xff) as u8;
            assert(final(bytes)@.subrange(0, 4) =~= self.enc());
            assert(final(bytes)@.skip(4) =~= old(bytes)@.skip(4));
            Ok(4)
        }
    }
}

/// Reads typed fields at explicit offsets of a borrowed byte slice.
pub struct Reader<'a> {
    buf: &'a [u8],
}

impl<'a> View for Reader<'a> {
    type V = Seq<u8>;

    closed spec fn view(&self) -> Seq<u8> {
        self.buf@
    }
}

impl<'a> Reader<'a> {
    pub fn init(bytes: &[u8]) -> (r: Reader)
        ensures
            r@ == bytes@,
    {
        Reader { buf: bytes }
    }

    /// Decode a `T` at `offset`.
    /// Returns `Ok((value, bytes consumed))`, or `Err(e)` where `e` is the
    /// minimum total slice length still required.
    pub fn read<T: Bytes + Default>(&self, offset: usize) -> (r: Result<(T, usize), usize>)
        requires
            offset <= self@.len() ==> offset + T::dec_req(self@.skip(offset as int)) <= usize::MAX,
        ensures
            ({
                let s = self@.skip(offset as int);
                match r {
                    Ok((v, n)) => {
                        &&& offset <= self@.len()
                        &&& T::dec_ok(s)
                        &&& n == T::dec_len(s)
                        &&& T::dec_rel(s, v)
                    },
                    Err(e) => {
                        if offset > self@.len() {
                            e == offset
                        } else {
                            !T::dec_ok(s) && e == offset + T::dec_req(s)
                        }
                    },
                }
            }),
    {
        if offset > self.buf.len() {
            return Err(offset);
        }
        let mut ret: T = T::default();
        let tail = vstd::slice::slice_subrange(self.buf, offset, self.buf.len());
        match ret.from_bytes(tail) {
            Ok(n) => Ok((ret, n)),
            Err(req) => Err(req + offset),
        }
    }

    /// Decode `count` back-to-back values of `T` starting at `offset`.
    /// Returns `Ok((values, total bytes consumed))`, or `Err(e)` where `e` is
    /// the minimum total slice length still required.  Entries past `count`
    /// are left at their default value.
    pub fn read_n<T: Bytes + Copy + Default, const N: usize>(
        &self,
        offset: usize,
        count: usize,
    ) -> (r: Result<([T; N], usize), usize>)
        requires
            count <= N,
            offset <= self@.len() ==> offset + dec_n_req::<T>(self@.skip(offset as int), count as nat)
                <= usize::MAX,
        ensures
            ({
                let s = self@.skip(offset as int);
                match r {
                    Ok((vs, n)) => {
                        &&& offset <= self@.len()
                        &&& dec_n_ok::<T>(s, count as nat)
                        &&& n == dec_n_len::<T>(s, count as nat)
                        &&& offset + n <= self@.len()
                        &&& dec_n_rel::<T>(s, count as nat, vs@)
                        &&& forall|i: int|
                            count <= i < N ==> call_ensures(T::default, (), #[trigger] vs@[i])
                    },
                    Err(e) => {
                        if offset > self@.len() {
                            e == offset
                        } else {
                            !dec_n_ok::<T>(s, count as nat) && e == offset + dec_n_req::<T>(
                                s,
                                count as nat,
                            )
                        }
                    },
                }
            }),
    {
        if offset > self.buf.len() {
            return Err(offset);
        }
        let ghost s: Seq<u8> = self@.skip(offset as int);
        let def: T = T::default();
        let mut ret: [T; N] = vstd::array::array_fill_for_copy_types(def);
        let mut size: usize = 0;
        let mut index: usize = 0;
        proof {
            assert(s.skip(0) =~= s);
        }
        while index < count
            invariant
                index <= count,
                count <= N,
                offset <= self@.len(),
                offset + size <= self@.len(),
                s == self@.skip(offset as int),
                offset <= self@.len() ==> offset + dec_n_req::<T>(s, count as nat) <= usize::MAX,
                dec_n_ok::<T>(s, index as nat),
                size == dec_n_len::<T>(s, index as nat),
                dec_n_rel::<T>(s, index as nat, ret@),
                dec_n_req::<T>(s, count as nat) == size + dec_n_req::<T>(
                    s.skip(size as int),
                    (count - index) as nat,
                ),
                dec_n_ok::<T>(s, count as nat) <==> dec_n_ok::<T>(
                    s.skip(size as int),
                    (count - index) as nat,
                ),
                dec_n_ok::<T>(s, count as nat) ==> dec_n_len::<T>(s, count as nat) == size
                    + dec_n_len::<T>(s.skip(size as int), (count - index) as nat),
                forall|i: int| index <= i < N ==> ret@[i] == def,
                call_ensures(T::default, (), def),
            decreases count - index,
        {
            let tail = vstd::slice::slice_subrange(self.buf, offset + size, self.buf.len());
            proof {
                assert(tail@ =~= s.skip(size as int));
            }
            let mut v: T = def;
            match v.from_bytes(tail) {
                Ok(n) => {
                    proof {
                        lemma_dec_n_rel_prefix::<T>(
                            s,
                            index as nat,
                            ret@,
                            ret@.update(index as int, v),
                        );
                        lemma_dec_n_snoc::<T>(s, index as nat, ret@.update(index as int, v), v);
                        assert(s.skip(size as int).skip(n as int) =~= s.skip((size + n) as int));
                    }
                    ret[index] = v;
                    size = size + n;
                    index = index + 1;
                },
                Err(req) => {
                    return Err(offset + size + req);
                },
            }
        }
        proof {
            assert(dec_n_len::<T>(s.skip(size as int), 0) == 0);
        }
        Ok((ret, size))
    }
}

/// Whether `bytes` starts with `count` back-to-back complete encodings of `T`.
pub open spec fn dec_n_ok<T: Bytes>(bytes: Seq<u8>, count: nat) -> bool
    decreases count,
{
    count == 0 || (T::dec_ok(bytes) && dec_n_ok::<T>(
        bytes.skip(T::dec_len(bytes) as int),
        (count - 1) as nat,
    ))
}

/// Bytes consumed by decoding `count` back-to-back values of `T`.
pub open spec fn dec_n_len<T: Bytes>(bytes: Seq<u8>, count: nat) -> nat
    decreases count,
{
    if count == 0 {
        0
    } else {
        T::dec_len(bytes) + dec_n_len::<T>(bytes.skip(T::dec_len(bytes) as int), (count - 1) as nat)
    }
}

/// Minimum length, from the start of `bytes`, reported when decoding `count`
/// back-to-back values of `T` fails.
pub open spec fn dec_n_req<T: Bytes>(bytes: Seq<u8>, count: nat) -> nat
    decreases count,
{
    if count == 0 {
        0
    } else if !T::dec_ok(bytes) {
        T::dec_req(bytes)
    } else {
        T::dec_len(bytes) + dec_n_req::<T>(bytes.skip(T::dec_len(bytes) as int), (count - 1) as nat)
    }
}

/// Relates a buffer to the first `count` values its prefix decodes to.
pub open spec fn dec_n_rel<T: Bytes>(bytes: Seq<u8>, count: nat, vs: Seq<T>) -> bool
    decreases count,
{
    count == 0 || (T::dec_rel(bytes, vs[0]) && dec_n_rel::<T>(
        bytes.skip(T::dec_len(bytes) as int),
        (count - 1) as nat,
        vs.skip(1),
    ))
}

/// The concatenated wire encoding of a sequence of values.
pub open spec fn enc_n<T: Bytes>(vs: Seq<T>) -> Seq<u8>
    decreases vs.len(),
{
    if vs.len() == 0 {
        Seq::empty()
    } else {
        vs[0].enc() + enc_n(vs.skip(1))
    }
}

/// Decoding several values never consumes more bytes than the buffer holds.
pub proof fn lemma_dec_n_len_bound<T: Bytes>(bytes: Seq<u8>, count: nat)
    requires
        dec_n_ok::<T>(bytes, count),
    ensures
        dec_n_len::<T>(bytes, count) <= bytes.len(),
    decreases count,
{
    if count > 0 {
        T::lemma_dec_len_bound(bytes);
        lemma_dec_n_len_bound::<T>(bytes.skip(T::dec_len(bytes) as int), (count - 1) as nat);
    }
}

/// The decode relation only inspects the first `count` values.
pub proof fn lemma_dec_n_rel_prefix<T: Bytes>(bytes: Seq<u8>, count: nat, vs: Seq<T>, ws: Seq<T>)
    requires
        dec_n_rel::<T>(bytes, count, vs),
        vs.len() >= count,
        ws.len() >= count,
        forall|k: int| 0 <= k < count ==> ws[k] == vs[k],
    ensures
        dec_n_rel::<T>(bytes, count, ws),
    decreases count,
{
    if count > 0 {
        assert(ws[0] == vs[0]);
        assert forall|k: int| 0 <= k < count - 1 implies ws.skip(1)[k] == vs.skip(1)[k] by {
            assert(ws[k + 1] == vs[k + 1]);
        }
        lemma_dec_n_rel_prefix::<T>(
            bytes.skip(T::dec_len(bytes) as int),
            (count - 1) as nat,
            vs.skip(1),
            ws.skip(1),
        );
    }
}

/// Decoding one more value extends the decoded prefix by that value.
pub proof fn lemma_dec_n_snoc<T: Bytes>(bytes: Seq<u8>, count: nat, vs: Seq<T>, v: T)
    requires
        dec_n_ok::<T>(bytes, count),
        dec_n_rel::<T>(bytes, count, vs),
        T::dec_ok(bytes.skip(dec_n_len::<T>(bytes, count) as int)),
        T::dec_rel(bytes.skip(dec_n_len::<T>(bytes, count) as int), v),
        count < vs.len(),
        vs[count as int] == v,
    ensures
        dec_n_ok::<T>(bytes, count + 1),
        dec_n_rel::<T>(bytes, count + 1, vs),
        dec_n_len::<T>(bytes, count + 1) == dec_n_len::<T>(bytes, count) + T::dec_len(
            bytes.skip(dec_n_len::<T>(bytes, count) as int),
        ),
    decreases count,
{
    if count == 0 {
        assert(bytes.skip(0) =~= bytes);
        assert(dec_n_ok::<T>(bytes.skip(T::dec_len(bytes) as int), 0));
        assert(dec_n_rel::<T>(bytes.skip(T::dec_len(bytes) as int), 0, vs.skip(1)));
        assert(dec_n_rel::<T>(bytes, 1, vs));
        assert(dec_n_len::<T>(bytes.skip(T::dec_len(bytes) as int), 0) == 0);
    } else {
        let rest = bytes.skip(T::dec_len(bytes) as int);
        T::lemma_dec_len_bound(bytes);
        lemma_dec_n_len_bound::<T>(rest, (count - 1) as nat);
        assert(rest.skip(dec_n_len::<T>(rest, (count - 1) as nat) as int) =~= bytes.skip(
            dec_n_len::<T>(bytes, count) as int,
        ));
        lemma_dec_n_snoc::<T>(rest, (count - 1) as nat, vs.skip(1), v);
        assert(vs.skip(1)[count - 1] == vs[count as int]);
    }
}

/// Writes typed fields at explicit offsets of a mutably borrowed byte slice.
pub struct Writer<'a> {
    pub buf: &'a mut [u8],
}

impl<'a> Writer<'a> {
    pub fn init(bytes: &'a mut [u8]) -> (r: Writer<'a>)
        ensures
            r.buf@ == old(bytes)@,
            final(bytes)@ == final(r.buf)@,
    {
        Writer { buf: bytes }
    }

    /// Encode `value` at `offset`.
    /// Returns `Ok(bytes written)`, or `Err(e)` where `e` is the minimum total
    /// slice length required.
    pub fn write<T: Bytes>(&mut self, value: &T, offset: usize) -> (r: Result<usize, usize>)
        requires
            value.wf(),
            offset + value.enc().len() <= usize::MAX,
        ensures
            final(old(self).buf)@ == final(final(self).buf)@,
            final(self).buf@.len() == old(self).buf@.len(),
            match r {
                Ok(n) => {
                    &&& n == value.enc().len()
                    &&& offset + n <= old(self).buf@.len()
                    &&& final(self).buf@.subrange(offset as int, (offset + n) as int)
                        == value.enc()
                    &&& final(self).buf@.subrange(0, offset as int)
                        == old(self).buf@.subrange(0, offset as int)
                    &&& final(self).buf@.skip((offset + n) as int)
                        == old(self).buf@.skip((offset + n) as int)
                },
                Err(e) => {
                    &&& final(self).buf@ == old(self).buf@
                    &&& if offset > old(self).buf@.len() {
                        e == offset
                    } else {
                        e == offset + value.enc().len()
                            && offset + value.enc().len() > old(self).buf@.len()
                    }
                },
            },
    {
        let buf_len = self.buf.len();
        if offset > buf_len {
            return Err(offset);
        }
        let (_head, tail) = self.buf.split_at_mut(offset);
        let ghost tail_entry: Seq<u8> = tail@;
        match value.to_bytes(tail) {
            Ok(n) => {
                assert(tail_entry =~= old(self).buf@.skip(offset as int));
                assert(final(tail)@.skip(n as int) == tail_entry.skip(n as int));
                assert(final(self).buf@.subrange(offset as int, (offset + n) as int)
                    =~= value.enc());
                assert(final(self).buf@.subrange(0, offset as int)
                    =~= old(self).buf@.subrange(0, offset as int));
                assert forall|i: int|
                    offset + n <= i < old(self).buf@.len() implies final(self).buf@[i] == old(
                    self,
                ).buf@[i] by {
                    assert(final(tail)@.skip(n as int)[i - offset - n] == tail_entry.skip(
                        n as int,
                    )[i - offset - n]);
                }
                assert(final(self).buf@.skip((offset + n) as int)
                    =~= old(self).buf@.skip((offset + n) as int));
                Ok(n)
            },
            Err(req) => {
                assert(final(self).buf@ =~= old(self).buf@);
                Err(req + offset)
            },
        }
    }

    /// Encode the values of `value` back to back, starting at `offset`.
    /// Returns `Ok(total bytes written)`, or `Err(e)` where `e` is the minimum
    /// total slice length required by the first value that did not fit; bytes
    /// already written before a failure are left in place.
    pub fn write_n<T: Bytes>(&mut self, value: &[T], offset: usize) -> (r: Result<usize, usize>)
        requires
            forall|i: int| 0 <= i < value@.len() ==> (#[trigger] value@[i]).wf(),
            offset + enc_n(value@).len() <= usize::MAX,
        ensures
            final(old(self).buf)@ == final(final(self).buf)@,
            final(self).buf@.len() == old(self).buf@.len(),
            match r {
                Ok(n) => {
                    &&& n == enc_n(value@).len()
                    &&& (value@.len() == 0 ==> final(self).buf@ == old(self).buf@)
                    &&& (value@.len() > 0 ==> {
                        &&& offset + n <= old(self).buf@.len()
                        &&& final(self).buf@.subrange(offset as int, (offset + n) as int) == enc_n(
                            value@,
                        )
                        &&& final(self).buf@.subrange(0, offset as int) == old(
                            self,
                        ).buf@.subrange(0, offset as int)
                        &&& final(self).buf@.skip((offset + n) as int) == old(self).buf@.skip(
                            (offset + n) as int,
                        )
                    })
                },
                Err(e) => {
                    &&& offset + enc_n(value@).len() > old(self).buf@.len()
                    &&& e == wn_req::<T>(value@, old(self).buf@.len(), offset as nat)
                    &&& (offset <= old(self).buf@.len() ==> final(self).buf@.subrange(
                        0,
                        offset as int,
                    ) == old(self).buf@.subrange(0, offset as int))
                },
            },
        decreases value@.len(),
    {
        if value.len() == 0 {
            return Ok(0);
        }
        proof {
            assert(value@.skip(0) =~= value@);
            assert(enc_n(value@) == value@[0].enc() + enc_n(value@.skip(1)));
        }
        let elem = vstd::slice::slice_index_get(value, 0);
        let first = match self.write(elem, offset) {
            Ok(n) => n,
            Err(e) => {
                return Err(e);
            },
        };
        let rest = vstd::slice::slice_subrange(value, 1, value.len());
        proof {
            assert(rest@ =~= value@.skip(1));
        }
        let ghost mid: Seq<u8> = self.buf@;
        match self.write_n(rest, offset + first) {
            Ok(n) => {
                proof {
                    if rest@.len() == 0 {
                        assert(enc_n(value@.skip(1)) =~= Seq::<u8>::empty());
                        assert(final(self).buf@.subrange(offset as int, (offset + first) as int)
                            =~= enc_n(value@));
                    } else {
                        assert forall|k: int| 0 <= k < first + n implies final(self).buf@[offset
                            + k] == enc_n(value@)[k] by {
                            if k < first {
                                assert(final(self).buf@.subrange(0, (offset + first) as int)[offset
                                    + k] == mid.subrange(0, (offset + first) as int)[offset + k]);
                                assert(mid.subrange(offset as int, (offset + first) as int)[k]
                                    == elem.enc()[k]);
                            } else {
                                assert(final(self).buf@.subrange(
                                    (offset + first) as int,
                                    (offset + first + n) as int,
                                )[k - first] == enc_n(rest@)[k - first]);
                            }
                        }
                        assert(final(self).buf@.subrange(
                            offset as int,
                            (offset + first + n) as int,
                        ) =~= enc_n(value@));
                        assert(final(self).buf@.subrange(0, offset as int) =~= old(
                            self,
                        ).buf@.subrange(0, offset as int));
                        assert forall|k: int|
                            offset + first + n <= k < old(self).buf@.len() implies final(self).buf@[k]
                            == old(self).buf@[k] by {
                            assert(final(self).buf@.skip((offset + first + n) as int)[k - (offset
                                + first + n)] == mid.skip((offset + first + n) as int)[k - (offset
                                + first + n)]);
                            assert(mid.skip((offset + first) as int)[k - (offset + first)]
                                == old(self).buf@.skip((offset + first) as int)[k - (offset
                                + first)]);
                        }
                        assert(final(self).buf@.skip((offset + first + n) as int) =~= old(
                            self,
                        ).buf@.skip((offset + first + n) as int));
                    }
                }
                Ok(first + n)
            },
            Err(e) => {
                proof {
                    assert(final(self).buf@.subrange(0, offset as int) =~= old(
                        self,
                    ).buf@.subrange(0, offset as int));
                }
                Err(e)
            },
        }
    }
}

/// The minimum length reported when writing `vs` from `offset` does not fit.
pub open spec fn wn_req<T: Bytes>(vs: Seq<T>, len: nat, offset: nat) -> nat
    decreases vs.len(),
{
    if vs.len() == 0 {
        0
    } else if offset > len {
        offset
    } else if offset + vs[0].enc().len() > len {
        offset + vs[0].enc().len()
    } else {
        wn_req::<T>(vs.skip(1), len, offset + vs[0].enc().len())
    }
}

} // verus!
