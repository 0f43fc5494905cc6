use vstd::prelude::*;
use vstd::utf8::*;

use crate::error::{Error, ErrorView};
use crate::partition::{
    subtype_code, subtype_of_code, type_code, type_of_code, Flags, Partition, PartitionView,
    SubType, Type, MAX_NAME_LEN,
};
use crate::strings::{chars_of, lossy_decode, trim_nul, trim_nul_string, utf8_lossy};

verus! {

/// Length of a binary partition-table image.
pub const IMAGE_LEN: usize = 0xC00;

/// The MD5 digest of a byte sequence.
pub uninterp spec fn md5_of(data: Seq<u8>) -> Seq<u8>;

/// Relies on `md5::Md5::digest` (md-5): the 16-byte MD5 digest of `data`.
#[verifier::external_body]
fn md5_digest(data: &[u8]) -> (r: Vec<u8>)
    ensures
        r@ == md5_of(data@),
        r@.len() == 16,
{
    <md5::Md5 as md5::Digest>::digest(data).to_vec()
}

/// The four little-endian bytes of `x`.
pub open spec fn le32(x: u32) -> Seq<u8> {
    seq![
        (x % 0x100) as u8,
        ((x / 0x100) % 0x100) as u8,
        ((x / 0x10000) % 0x100) as u8,
        (x / 0x1000000) as u8,
    ]
}

/// The little-endian 32-bit value of the four bytes of `b` at `at`.
pub open spec fn le32_at(b: Seq<u8>, at: int) -> u32 {
    (b[at] + 0x100 * b[at + 1] + 0x10000 * b[at + 2] + 0x1000000 * b[at + 3]) as u32
}

/// `b` cut or padded with zero bytes to `n` bytes.
pub open spec fn pad_to(b: Seq<u8>, n: nat) -> Seq<u8> {
    if b.len() >= n {
        b.take(n as int)
    } else {
        b + Seq::new((n - b.len()) as nat, |i: int| 0u8)
    }
}

/// The 32-byte record of a partition.
#[verifier::opaque]
pub open spec fn record_of(p: PartitionView) -> Seq<u8> {
    seq![0xAAu8, 0x50u8, type_code(p.ty), subtype_code(p.subtype)] + le32(p.offset) + le32(
        p.size,
    ) + pad_to(encode_utf8(p.name), MAX_NAME_LEN as nat) + le32(p.flags.spec_bits())
}

/// A record is 32 bytes long.
pub proof fn lemma_record_len(p: PartitionView)
    ensures
        record_of(p).len() == 32,
{
    reveal(record_of);
}

/// The records of the partitions, in order.
pub open spec fn records_of(parts: Seq<PartitionView>) -> Seq<u8>
    decreases parts.len(),
{
    if parts.len() == 0 {
        seq![]
    } else {
        records_of(parts.drop_last()) + record_of(parts.last())
    }
}

/// The 16 bytes that open a checksum record.
pub open spec fn checksum_magic() -> Seq<u8> {
    seq![0xEBu8, 0xEBu8] + Seq::new(14, |i: int| 0xFFu8)
}

/// The record starts with the checksum magic.
pub open spec fn is_checksum_record(rec: Seq<u8>) -> bool {
    rec.take(16) == checksum_magic()
}

/// The record is the end marker: 32 bytes of 0xFF.
pub open spec fn is_end_marker(rec: Seq<u8>) -> bool {
    forall|k: int| 0 <= k < rec.len() ==> rec[k] == 0xFF
}

/// The partition that a 32-byte partition record holds, or why it holds none.
pub open spec fn parse_record(rec: Seq<u8>) -> Result<PartitionView, ErrorView> {
    if rec[0] != 0xAA || rec[1] != 0x50 {
        Err(ErrorView::InvalidMagic)
    } else {
        let ty = type_of_code(rec[2]);
        match subtype_of_code(ty, rec[3]) {
            None => Err(ErrorView::UnknownSubtype { ty: rec[2], subtype: rec[3] }),
            Some(subtype) => {
                let bits = le32_at(rec, 28);
                Ok(
                    PartitionView {
                        name: trim_nul(lossy_decode(rec.subrange(12, 28))),
                        ty,
                        subtype,
                        offset: le32_at(rec, 4),
                        size: le32_at(rec, 8),
                        flags: Flags::of(bits % 2 == 1, (bits / 2) % 2 == 1),
                    },
                )
            },
        }
    }
}

/// The record of `data` with index `i`.
pub open spec fn record_at(data: Seq<u8>, i: nat) -> Seq<u8> {
    data.subrange((i * 32) as int, (i * 32 + 32) as int)
}

/// Scans the records of `data` from index `i` on; `hashed` holds the partition
/// records seen so far and `parts` their partitions.
pub open spec fn scan_records(
    data: Seq<u8>,
    i: nat,
    hashed: Seq<u8>,
    parts: Seq<PartitionView>,
) -> Result<Seq<PartitionView>, ErrorView>
    decreases data.len() - i * 32,
{
    if data.len() < i * 32 + 32 {
        Err(ErrorView::NoEndMarker)
    } else {
        let rec = record_at(data, i);
        if is_checksum_record(rec) {
            if rec.subrange(16, 32) == md5_of(hashed) {
                scan_records(data, i + 1, hashed, parts)
            } else {
                Err(
                    ErrorView::InvalidChecksum {
                        expected: rec.subrange(16, 32),
                        computed: md5_of(hashed),
                    },
                )
            }
        } else if is_end_marker(rec) {
            Ok(parts)
        } else {
            match parse_record(rec) {
                Ok(p) => scan_records(data, i + 1, hashed + rec, parts.push(p)),
                Err(e) => Err(e),
            }
        }
    }
}

/// The partitions that binary data holds, in order, or why it holds none.
pub open spec fn decode_binary(data: Seq<u8>) -> Result<Seq<PartitionView>, ErrorView> {
    if data.len() % 32 != 0 {
        Err(ErrorView::LengthNotMultipleOf32)
    } else {
        scan_records(data, 0, seq![], seq![])
    }
}

/// The binary image of a table: its records, the checksum record, then 0xFF
/// up to the image length.
pub open spec fn encode_binary(parts: Seq<PartitionView>) -> Seq<u8> {
    let body = records_of(parts);
    body + checksum_magic() + md5_of(body) + Seq::new(
        (IMAGE_LEN - 32 * parts.len() - 32) as nat,
        |i: int| 0xFFu8,
    )
}

/// The views of a sequence of partitions.
pub open spec fn views(v: Seq<Partition>) -> Seq<PartitionView> {
    v.map_values(|p: Partition| p@)
}

/// Appends the four little-endian bytes of `x`.
fn push_le32(out: &mut Vec<u8>, x: u32)
    ensures
        final(out)@ == old(out)@ + le32(x),
{
    out.push((x % 0x100) as u8);
    out.push(((x / 0x100) % 0x100) as u8);
    out.push(((x / 0x10000) % 0x100) as u8);
    out.push((x / 0x1000000) as u8);
    assert(final(out)@ =~= old(out)@ + le32(x));
}

/// The little-endian 32-bit value of the four bytes at `at`.
fn read_le32(b: &[u8], at: usize) -> (r: u32)
    requires
        at + 4 <= b@.len(),
    ensures
        r == le32_at(b@, at as int),
{
    b[at] as u32 + 0x100 * (b[at + 1] as u32) + 0x10000 * (b[at + 2] as u32) + 0x1000000 * (
    b[at + 3] as u32)
}

impl Partition {
    /// Appends the 32-byte binary record of this partition to `out`.
    pub fn write_bin(&self, out: &mut Vec<u8>)
        ensures
            final(out)@ == old(out)@ + record_of(self@),
    {
        let ghost start = out@;
        out.push(0xAA);
        out.push(0x50);
        out.push(self.ty.as_u8());
        out.push(self.subtype.as_u8());
        push_le32(out, self.offset);
        push_le32(out, self.size);
        let ghost before_name = out@;
        let bytes = self.name.as_str().as_bytes();
        let mut k: usize = 0;
        while k < MAX_NAME_LEN
            invariant
                bytes@ == encode_utf8(self.name@),
                0 <= k <= MAX_NAME_LEN,
                out@ == before_name + pad_to(bytes@, MAX_NAME_LEN as nat).take(k as int),
            decreases MAX_NAME_LEN - k,
        {
            let byte: u8 = if k < bytes.len() { bytes[k] } else { 0 };
            out.push(byte);
            k = k + 1;
            assert(out@ =~= before_name + pad_to(bytes@, MAX_NAME_LEN as nat).take(k as int));
        }
        assert(pad_to(bytes@, MAX_NAME_LEN as nat).take(MAX_NAME_LEN as int) =~= pad_to(
            bytes@,
            MAX_NAME_LEN as nat,
        ));
        push_le32(out, self.flags.bits());
        reveal(record_of);
        assert(out@ =~= start + record_of(self@));
    }
}

/// Whether the record at `at` starts with the checksum magic.
fn checksum_record_at(data: &[u8], at: usize) -> (r: bool)
    requires
        at + 32 <= data@.len(),
    ensures
        r == is_checksum_record(data@.subrange(at as int, at + 32)),
{
    let ghost rec = data@.subrange(at as int, at + 32);
    let n = data.len();
    if data[at] != 0xEB || data[at + 1] != 0xEB {
        assert(rec.take(16)[0] != checksum_magic()[0] || rec.take(16)[1] != checksum_magic()[1]);
        return false;
    }
    let mut k: usize = 2;
    while k < 16
        invariant
            at + 32 <= data@.len(),
            n == data@.len(),
            2 <= k <= 16,
            rec == data@.subrange(at as int, at + 32),
            rec[0] == 0xEB && rec[1] == 0xEB,
            forall|m: int| 2 <= m < k ==> rec[m] == 0xFF,
        decreases 16 - k,
    {
        if data[at + k] != 0xFF {
            assert(rec.take(16)[k as int] != checksum_magic()[k as int]);
            return false;
        }
        k = k + 1;
    }
    assert(rec.take(16) =~= checksum_magic());
    true
}

/// Whether the record at `at` is the end marker.
fn end_marker_at(data: &[u8], at: usize) -> (r: bool)
    requires
        at + 32 <= data@.len(),
    ensures
        r == is_end_marker(data@.subrange(at as int, at + 32)),
{
    let ghost rec = data@.subrange(at as int, at + 32);
    let n = data.len();
    let mut k: usize = 0;
    while k < 32
        invariant
            at + 32 <= data@.len(),
            n == data@.len(),
            0 <= k <= 32,
            rec == data@.subrange(at as int, at + 32),
            forall|m: int| 0 <= m < k ==> rec[m] == 0xFF,
        decreases 32 - k,
    {
        if data[at + k] != 0xFF {
            assert(rec[k as int] != 0xFF);
            return false;
        }
        k = k + 1;
    }
    true
}

/// The bytes of `data` from `from` up to `to`.
fn bytes_between(data: &[u8], from: usize, to: usize) -> (r: Vec<u8>)
    requires
        from <= to <= data@.len(),
    ensures
        r@ == data@.subrange(from as int, to as int),
{
    let mut out: Vec<u8> = Vec::new();
    let mut k: usize = from;
    while k < to
        invariant
            from <= k <= to <= data@.len(),
            out@ == data@.subrange(from as int, k as int),
        decreases to - k,
    {
        out.push(data[k]);
        k = k + 1;
        assert(out@ =~= data@.subrange(from as int, k as int));
    }
    out
}

/// The partition that the 32-byte partition record at `at` holds.
fn read_record(data: &[u8], at: usize) -> (r: Result<Partition, Error>)
    requires
        at + 32 <= data@.len(),
    ensures
        match r {
            Ok(p) => parse_record(data@.subrange(at as int, at + 32)) == Ok::<
                PartitionView,
                ErrorView,
            >(p@),
            Err(e) => parse_record(data@.subrange(at as int, at + 32)) == Err::<
                PartitionView,
                ErrorView,
            >(e@),
        },
{
    let ghost rec = data@.subrange(at as int, at + 32);
    if data[at] != 0xAA || data[at + 1] != 0x50 {
        return Err(Error::InvalidMagic);
    }
    let ty = Type::from_u8(data[at + 2]);
    let subtype = match SubType::from_code(ty, data[at + 3]) {
        Some(st) => st,
        None => {
            return Err(Error::UnknownSubtype { ty: data[at + 2], subtype: data[at + 3] });
        },
    };
    let name_bytes = bytes_between(data, at + 12, at + 28);
    assert(name_bytes@ =~= rec.subrange(12, 28));
    let lossy = utf8_lossy(name_bytes.as_slice());
    let chars = chars_of(lossy.as_str());
    let name = trim_nul_string(chars.as_slice());
    let offset = read_le32(data, at + 4);
    let size = read_le32(data, at + 8);
    let bits = read_le32(data, at + 28);
    assert(le32_at(rec, 4) == le32_at(data@, at + 4));
    assert(le32_at(rec, 8) == le32_at(data@, at + 8));
    assert(le32_at(rec, 28) == le32_at(data@, at + 28));
    let flags = Flags::from_bits_truncate(bits);
    Ok(Partition { name, ty, subtype, offset, size, flags })
}

/// Decodes binary data into its partitions, in order: the length must be a
/// multiple of 32; each checksum record must hold the MD5 digest of the
/// partition records before it; the end marker ends the table.
pub fn decode_partitions(data: &[u8]) -> (r: Result<Vec<Partition>, Error>)
    ensures
        match r {
            Ok(v) => decode_binary(data@) == Ok::<Seq<PartitionView>, ErrorView>(views(v@)),
            Err(e) => decode_binary(data@) == Err::<Seq<PartitionView>, ErrorView>(e@),
        },
{
    if data.len() % 32 != 0 {
        return Err(Error::LengthNotMultipleOf32);
    }
    let mut hashed: Vec<u8> = Vec::new();
    let mut parts: Vec<Partition> = Vec::new();
    let mut i: usize = 0;
    assert(views(parts@) =~= Seq::<PartitionView>::empty());
    let n = data.len();
    while i < n
        invariant
            n == data@.len(),
            data@.len() % 32 == 0,
            i % 32 == 0,
            i <= data@.len(),
            decode_binary(data@) == scan_records(
                data@,
                (i / 32) as nat,
                hashed@,
                views(parts@),
            ),
        decreases data@.len() - i,
    {
        let ghost idx: nat = (i / 32) as nat;
        assert(i + 32 <= n);
        assert(record_at(data@, idx) == data@.subrange(i as int, i + 32));
        if checksum_record_at(data, i) {
            let computed = md5_digest(hashed.as_slice());
            let expected = bytes_between(data, i + 16, i + 32);
            assert(expected@ =~= record_at(data@, idx).subrange(16, 32));
            let mut same = true;
            let mut k: usize = 0;
            while k < 16
                invariant
                    expected@.len() == 16,
                    computed@.len() == 16,
                    0 <= k <= 16,
                    same == (forall|m: int| 0 <= m < k ==> expected@[m] == computed@[m]),
                decreases 16 - k,
            {
                same = same && expected[k] == computed[k];
                k = k + 1;
            }
            if !same {
                assert(expected@ != computed@) by {
                    if expected@ == computed@ {
                        assert(forall|m: int| 0 <= m < 16 ==> expected@[m] == computed@[m]);
                    }
                }
                return Err(Error::InvalidChecksum { expected, computed });
            }
            assert(expected@ =~= computed@);
        } else if end_marker_at(data, i) {
            return Ok(parts);
        } else {
            match read_record(data, i) {
                Ok(p) => {
                    let ghost old_parts = parts@;
                    parts.push(p);
                    assert(views(parts@) =~= views(old_parts).push(p@));
                    let mut k: usize = i;
                    let ghost old_hashed = hashed@;
                    while k < i + 32
                        invariant
                            i + 32 <= data@.len(),
                            n == data@.len(),
                            i <= k <= i + 32,
                            hashed@ == old_hashed + data@.subrange(i as int, k as int),
                        decreases i + 32 - k,
                    {
                        hashed.push(data[k]);
                        k = k + 1;
                        assert(hashed@ =~= old_hashed + data@.subrange(i as int, k as int));
                    }
                },
                Err(e) => {
                    return Err(e);
                },
            }
        }
        i = i + 32;
    }
    Err(Error::NoEndMarker)
}

/// Encodes partitions into a binary image: their records in order, the
/// checksum record over them, then 0xFF up to 0xC00 bytes. Fails where the
/// records and the checksum record do not fit in the image.
pub fn encode_partitions(parts: &[Partition]) -> (r: Result<Vec<u8>, Error>)
    ensures
        32 * parts@.len() + 32 > IMAGE_LEN ==> (r matches Err(e) && e@
            == ErrorView::TooManyPartitions),
        32 * parts@.len() + 32 <= IMAGE_LEN ==> (r matches Ok(b) && b@ == encode_binary(
            views(parts@),
        ) && b@.len() == IMAGE_LEN),
{
    if parts.len() > (IMAGE_LEN - 32) / 32 {
        return Err(Error::TooManyPartitions);
    }
    let mut out: Vec<u8> = Vec::new();
    let mut i: usize = 0;
    while i < parts.len()
        invariant
            0 <= i <= parts@.len(),
            out@ == records_of(views(parts@).take(i as int)),
            out@.len() == 32 * i,
        decreases parts@.len() - i,
    {
        proof {
            lemma_record_len(parts@[i as int]@);
        }
        parts[i].write_bin(&mut out);
        i = i + 1;
        assert(views(parts@).take(i as int).drop_last() =~= views(parts@).take(i - 1));
    }
    assert(views(parts@).take(i as int) =~= views(parts@));
    let body = out.clone();
    let digest = md5_digest(body.as_slice());
    out.push(0xEB);
    out.push(0xEB);
    let mut k: usize = 2;
    while k < 16
        invariant
            2 <= k <= 16,
            out@ == body@ + checksum_magic().take(k as int),
        decreases 16 - k,
    {
        out.push(0xFF);
        k = k + 1;
        assert(out@ =~= body@ + checksum_magic().take(k as int));
    }
    assert(checksum_magic().take(16) =~= checksum_magic());
    let mut k: usize = 0;
    while k < 16
        invariant
            digest@.len() == 16,
            0 <= k <= 16,
            out@ == body@ + checksum_magic() + digest@.take(k as int),
        decreases 16 - k,
    {
        out.push(digest[k]);
        k = k + 1;
        assert(out@ =~= body@ + checksum_magic() + digest@.take(k as int));
    }
    assert(digest@.take(16) =~= digest@);
    let ghost head = out@;
    let fill = IMAGE_LEN - 32 * parts.len() - 32;
    let mut k: usize = 0;
    while k < fill
        invariant
            0 <= k <= fill,
            out@ == head + Seq::new(k as nat, |m: int| 0xFFu8),
        decreases fill - k,
    {
        out.push(0xFF);
        k = k + 1;
        assert(out@ =~= head + Seq::new(k as nat, |m: int| 0xFFu8));
    }
    assert(out@ =~= encode_binary(views(parts@)));
    Ok(out)
}

} // verus!
