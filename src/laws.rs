use vstd::prelude::*;
use vstd::utf8::*;

use crate::binary::{
    checksum_magic, decode_binary, encode_binary, is_checksum_record, is_end_marker, le32, le32_at,
    lemma_record_len,
    md5_of, pad_to, parse_record, record_at, record_of, records_of, scan_records, IMAGE_LEN,
};
use crate::error::ErrorView;
use crate::partition::{
    app_type_code, app_type_name, app_type_of_code, app_type_of_name, data_type_code,
    data_type_name, data_type_of_code, data_type_of_name, partition_wf, subtype_matches_type,
    type_is_canonical,
    subtype_code, subtype_of_code, type_code, type_of_code, AppType, DataType, Flags,
    PartitionView, SubType, Type, MAX_NAME_LEN,
};
use crate::strings::{
    lemma_encode_utf8_concat, lossy_decode, nuls, skip_nul_back, skip_nul_front, trim_nul,
};
use crate::table::{table_from_binary, table_from_rows};
use crate::text::{
    all_hex_digits, byte_text, flags_of_text, flags_text, has_no_dec_digit, hex_char, hex_digit_value,
    hex_digits, hex_text, hex_value, int_u32_of, int_u8_of, is_blank_row, is_hex_literal,
    fitting_chars, name_field_of, normalized_subtype, offset_of_text, row_fields, row_flags, row_of, rows_from,
    size_of_text, split_colon, subtype_of_text, subtype_text, type_of_text, type_text,
    DEFAULT_CURSOR,
};
use crate::validate::{table_valid, validate_table};

verus! {

/// `k` zero bytes.
pub open spec fn zeros(k: nat) -> Seq<u8> {
    Seq::new(k, |i: int| 0u8)
}

/// Every character takes at least one byte of UTF-8.
pub proof fn lemma_encode_utf8_len(s: Seq<char>)
    ensures
        encode_utf8(s).len() >= s.len(),
    decreases s.len(),
{
    if s.len() > 0 {
        lemma_encode_utf8_len(s.drop_first());
    }
}

/// NUL characters are encoded as zero bytes.
pub proof fn lemma_encode_nuls(k: nat)
    ensures
        encode_utf8(nuls(k)) == zeros(k),
    decreases k,
{
    if k > 0 {
        assert(nuls(k).drop_first() =~= nuls((k - 1) as nat));
        lemma_encode_nuls((k - 1) as nat);
        assert(0u32 & 0x7F == 0) by (bit_vector);
        assert('\0' as u32 == 0);
        assert(encode_scalar('\0' as u32) =~= seq![0u8]);
        assert(encode_utf8(nuls(k)) =~= zeros(k));
    } else {
        assert(encode_utf8(nuls(k)) =~= zeros(k));
    }
}

/// A name with no NUL at either end comes back from trimming the NULs that
/// pad it.
pub proof fn lemma_trim_padded_name(name: Seq<char>, k: nat)
    requires
        name.len() > 0 ==> name[0] != '\0' && name.last() != '\0',
    ensures
        trim_nul(name + nuls(k)) == name,
{
    if name.len() > 0 {
        assert((name + nuls(k))[0] == name[0]);
        assert(skip_nul_front(name + nuls(k)) == name + nuls(k));
    } else {
        lemma_skip_front_nuls(k);
        assert(name + nuls(k) =~= nuls(k));
    }
    lemma_skip_back_padded(name, k);
}

proof fn lemma_skip_front_nuls(k: nat)
    ensures
        skip_nul_front(nuls(k)) == Seq::<char>::empty(),
    decreases k,
{
    if k > 0 {
        assert(nuls(k).drop_first() =~= nuls((k - 1) as nat));
        lemma_skip_front_nuls((k - 1) as nat);
    } else {
        assert(nuls(k) =~= Seq::<char>::empty());
    }
}

proof fn lemma_skip_back_padded(name: Seq<char>, k: nat)
    requires
        name.len() > 0 ==> name.last() != '\0',
    ensures
        skip_nul_back(name + nuls(k)) == name,
    decreases k,
{
    if k > 0 {
        assert((name + nuls(k)).drop_last() =~= name + nuls((k - 1) as nat));
        lemma_skip_back_padded(name, (k - 1) as nat);
    } else {
        assert(name + nuls(k) =~= name);
    }
}

/// The bytes of a name that fits in `n` bytes, padded with zeros to `n`
/// bytes, read back as UTF-8, give the name and NULs.
pub proof fn lemma_padded_name_decodes(name: Seq<char>, n: nat)
    requires
        encode_utf8(name).len() <= n,
    ensures
        valid_utf8(pad_to(encode_utf8(name), n)),
        decode_utf8(pad_to(encode_utf8(name), n)) == name + nuls(
            (n - encode_utf8(name).len()) as nat,
        ),
{
    let k = (n - encode_utf8(name).len()) as nat;
    lemma_encode_nuls(k);
    lemma_encode_utf8_concat(name, nuls(k));
    assert(pad_to(encode_utf8(name), n) =~= encode_utf8(name + nuls(k)));
    encode_utf8_valid_utf8(name + nuls(k));
    encode_utf8_decode_utf8(name + nuls(k));
}

/// Reading back the four little-endian bytes of a value gives the value.
pub proof fn lemma_le32(x: u32)
    ensures
        le32_at(le32(x), 0) == x,
{
    let b = le32(x);
    assert(b[0] == x % 0x100);
    assert(b[1] == (x / 0x100) % 0x100);
    assert(b[2] == (x / 0x10000) % 0x100);
    assert(b[3] == x / 0x1000000);
    assert(x % 0x100 + 0x100 * ((x / 0x100) % 0x100) + 0x10000 * ((x / 0x10000) % 0x100)
        + 0x1000000 * (x / 0x1000000) == x) by (nonlinear_arith);
}

/// A numeric sub-type ID reads back as the sub-type it was written from.
pub proof fn lemma_subtype_code(ty: Type, st: SubType)
    requires
        crate::partition::subtype_matches_type(ty, st),
    ensures
        subtype_of_code(ty, subtype_code(st)) == Some(st),
{
    match st {
        SubType::App(a) => match a {
            AppType::Factory => {},
            AppType::Ota_0 => {},
            AppType::Ota_1 => {},
            AppType::Ota_2 => {},
            AppType::Ota_3 => {},
            AppType::Ota_4 => {},
            AppType::Ota_5 => {},
            AppType::Ota_6 => {},
            AppType::Ota_7 => {},
            AppType::Ota_8 => {},
            AppType::Ota_9 => {},
            AppType::Ota_10 => {},
            AppType::Ota_11 => {},
            AppType::Ota_12 => {},
            AppType::Ota_13 => {},
            AppType::Ota_14 => {},
            AppType::Ota_15 => {},
            AppType::Test => {},
        },
        SubType::Data(d) => match d {
            DataType::Ota => {},
            DataType::Phy => {},
            DataType::Nvs => {},
            DataType::Coredump => {},
            DataType::NvsKeys => {},
            DataType::EfuseEm => {},
            DataType::Undefined => {},
            DataType::Esphttpd => {},
            DataType::Fat => {},
            DataType::Spiffs => {},
            DataType::Littlefs => {},
        },
        SubType::Custom(_) => {},
    }
}

/// Where the fields of a partition stand in its record.
proof fn lemma_record_layout(p: PartitionView)
    requires
        encode_utf8(p.name).len() <= MAX_NAME_LEN,
    ensures
        record_of(p).len() == 32,
        record_of(p)[0] == 0xAA,
        record_of(p)[1] == 0x50,
        record_of(p)[2] == type_code(p.ty),
        record_of(p)[3] == subtype_code(p.subtype),
        le32_at(record_of(p), 4) == p.offset,
        le32_at(record_of(p), 8) == p.size,
        le32_at(record_of(p), 28) == p.flags.spec_bits(),
        record_of(p).subrange(12, 28) == pad_to(encode_utf8(p.name), MAX_NAME_LEN as nat),
{
    reveal(record_of);
    let rec = record_of(p);
    let name_bytes = pad_to(encode_utf8(p.name), MAX_NAME_LEN as nat);
    assert(name_bytes.len() == 16);
    assert(rec.subrange(12, 28) =~= name_bytes);
    assert(rec.subrange(4, 8) =~= le32(p.offset));
    assert(rec.subrange(8, 12) =~= le32(p.size));
    assert(rec.subrange(28, 32) =~= le32(p.flags.spec_bits()));
    lemma_le32(p.offset);
    lemma_le32(p.size);
    lemma_le32(p.flags.spec_bits());
    assert(le32_at(rec, 4) == le32_at(le32(p.offset), 0));
    assert(le32_at(rec, 8) == le32_at(le32(p.size), 0));
    assert(le32_at(rec, 28) == le32_at(le32(p.flags.spec_bits()), 0));
}

/// The name field of a record holding a name that fits reads back as the
/// name.
proof fn lemma_record_name(name: Seq<char>)
    requires
        encode_utf8(name).len() <= MAX_NAME_LEN,
        name.len() > 0 ==> name[0] != '\0' && name.last() != '\0',
    ensures
        trim_nul(lossy_decode(pad_to(encode_utf8(name), MAX_NAME_LEN as nat))) == name,
{
    lemma_padded_name_decodes(name, MAX_NAME_LEN as nat);
    lemma_trim_padded_name(name, (MAX_NAME_LEN - encode_utf8(name).len()) as nat);
}

/// The record of a partition that a record can hold reads back as that
/// partition, and is neither a checksum record nor the end marker.
pub proof fn lemma_record_round_trip(p: PartitionView)
    requires
        partition_wf(p),
    ensures
        parse_record(record_of(p)) == Ok::<PartitionView, ErrorView>(p),
        !is_checksum_record(record_of(p)),
        !is_end_marker(record_of(p)),
{
    let rec = record_of(p);
    lemma_record_layout(p);
    lemma_record_name(p.name);
    lemma_subtype_code(p.ty, p.subtype);
    assert(type_of_code(type_code(p.ty)) == p.ty);
    let bits = p.flags.spec_bits();
    assert(Flags::of(bits % 2 == 1, (bits / 2) % 2 == 1) == p.flags);
    assert(rec.take(16)[0] != checksum_magic()[0]);
    assert(rec[0] != 0xFF);
}

/// Record `i` of the records of `t` is that of partition `i`, and the
/// records before it are those of the partitions before it.
pub proof fn lemma_records_layout(t: Seq<PartitionView>)
    ensures
        records_of(t).len() == 32 * t.len(),
        forall|i: int|
            0 <= i < t.len() ==> #[trigger] records_of(t).subrange(32 * i, 32 * i + 32)
                == record_of(t[i]),
        forall|i: int|
            0 <= i <= t.len() ==> #[trigger] records_of(t).take(32 * i) == records_of(t.take(i)),
    decreases t.len(),
{
    if t.len() > 0 {
        let init = t.drop_last();
        lemma_records_layout(init);
        lemma_record_len(t.last());
        let r = records_of(t);
        assert(r == records_of(init) + record_of(t.last()));
        assert forall|i: int| 0 <= i < t.len() implies #[trigger] r.subrange(32 * i, 32 * i + 32)
            == record_of(t[i]) by {
            if i < init.len() {
                assert(r.subrange(32 * i, 32 * i + 32) =~= records_of(init).subrange(
                    32 * i,
                    32 * i + 32,
                ));
                assert(init[i] == t[i]);
            } else {
                assert(r.subrange(32 * i, 32 * i + 32) =~= record_of(t.last()));
            }
        }
        assert forall|i: int| 0 <= i <= t.len() implies #[trigger] r.take(32 * i) == records_of(
            t.take(i),
        ) by {
            if i < t.len() {
                assert(r.take(32 * i) =~= records_of(init).take(32 * i));
                assert(init.take(i) =~= t.take(i));
            } else {
                assert(r.take(32 * i) =~= r);
                assert(t.take(i) =~= t);
            }
        }
    } else {
        assert forall|i: int| 0 <= i <= t.len() implies #[trigger] records_of(t).take(32 * i)
            == records_of(t.take(i)) by {
            assert(t.take(i) =~= t);
            assert(records_of(t).take(32 * i) =~= records_of(t));
        }
    }
}

/// Scanning the image of `t` from record `i`, with the records and
/// partitions before it, gives back `t`.
proof fn lemma_scan_image(t: Seq<PartitionView>, i: nat)
    requires
        i <= t.len(),
        t.len() <= 94,
        forall|k: int| 0 <= k < t.len() ==> partition_wf(#[trigger] t[k]),
        encode_binary(t).len() == IMAGE_LEN,
    ensures
        scan_records(encode_binary(t), i, records_of(t.take(i as int)), t.take(i as int)) == Ok::<
            Seq<PartitionView>,
            ErrorView,
        >(t),
    decreases t.len() - i,
{
    let img = encode_binary(t);
    let body = records_of(t);
    lemma_records_layout(t);
    assert(img.subrange(0, body.len() as int) =~= body);
    if i < t.len() {
        let rec = record_at(img, i);
        assert(rec =~= body.subrange(32 * i as int, (32 * i + 32) as int));
        assert(rec == record_of(t[i as int]));
        lemma_record_round_trip(t[i as int]);
        assert(t.take(i + 1 as int).drop_last() =~= t.take(i as int));
        assert(t.take(i + 1 as int) =~= t.take(i as int).push(t[i as int]));
        assert(records_of(t.take(i + 1 as int)) == records_of(t.take(i as int)) + rec);
        lemma_scan_image(t, (i + 1) as nat);
        assert(img.len() >= i * 32 + 32);
        assert(scan_records(img, i, records_of(t.take(i as int)), t.take(i as int))
            == scan_records(img, (i + 1) as nat, records_of(t.take(i + 1 as int)), t.take(i + 1 as int)));
    } else {
        assert(t.take(i as int) =~= t);
        let n = t.len();
        let sum = record_at(img, n);
        assert(md5_of(body).len() == 16);
        assert(sum.take(16) =~= checksum_magic());
        assert(sum.subrange(16, 32) =~= md5_of(body));
        let end = record_at(img, n + 1);
        assert(img.len() >= (n + 1) * 32 + 32);
        assert forall|k: int| 0 <= k < end.len() implies end[k] == 0xFF by {
            assert(end[k] == img[(n + 1) * 32 + k]);
        }
        assert(end.take(16)[0] != checksum_magic()[0]);
        assert(is_end_marker(end));
        assert(!is_checksum_record(end));
        assert(scan_records(img, (n + 1) as nat, body, t) == Ok::<Seq<PartitionView>, ErrorView>(t));
        assert(is_checksum_record(sum));
        assert(records_of(t.take(i as int)) == body);
        assert(scan_records(img, n, body, t) == scan_records(img, (n + 1) as nat, body, t));
    }
}

/// Round trip of the binary format: a valid table of at most 94 partitions
/// that records can hold, encoded as `to_bin` encodes it (an image of 0xC00
/// bytes), decodes to the same table.
pub proof fn lemma_binary_round_trip(t: Seq<PartitionView>)
    requires
        table_valid(t),
        t.len() <= 94,
        forall|k: int| 0 <= k < t.len() ==> partition_wf(#[trigger] t[k]),
        encode_binary(t).len() == IMAGE_LEN,
    ensures
        table_from_binary(encode_binary(t)) == Ok::<Seq<PartitionView>, ErrorView>(t),
{
    lemma_scan_image(t, 0);
    assert(t.take(0) =~= Seq::<PartitionView>::empty());
    assert(records_of(t.take(0)) =~= Seq::<u8>::empty());
    assert(encode_binary(t).len() % 32 == 0);
}

/// A few characters of a name, enough to tell the sub-type names apart.
pub open spec fn name_key(s: Seq<char>) -> (int, char, char, char) {
    (s.len() as int, s[0], s.last(), s[s.len() - 2])
}

/// The keys of the sub-type and type names.
proof fn lemma_name_keys()
    ensures
        name_key("factory"@) == (7int, 'f', 'y', 'r'),
        name_key("ota_0"@) == (5int, 'o', '0', '_'),
        name_key("ota_1"@) == (5int, 'o', '1', '_'),
        name_key("ota_2"@) == (5int, 'o', '2', '_'),
        name_key("ota_3"@) == (5int, 'o', '3', '_'),
        name_key("ota_4"@) == (5int, 'o', '4', '_'),
        name_key("ota_5"@) == (5int, 'o', '5', '_'),
        name_key("ota_6"@) == (5int, 'o', '6', '_'),
        name_key("ota_7"@) == (5int, 'o', '7', '_'),
        name_key("ota_8"@) == (5int, 'o', '8', '_'),
        name_key("ota_9"@) == (5int, 'o', '9', '_'),
        name_key("ota_10"@) == (6int, 'o', '0', '1'),
        name_key("ota_11"@) == (6int, 'o', '1', '1'),
        name_key("ota_12"@) == (6int, 'o', '2', '1'),
        name_key("ota_13"@) == (6int, 'o', '3', '1'),
        name_key("ota_14"@) == (6int, 'o', '4', '1'),
        name_key("ota_15"@) == (6int, 'o', '5', '1'),
        name_key("test"@) == (4int, 't', 't', 's'),
        name_key("ota"@) == (3int, 'o', 'a', 't'),
        name_key("phy"@) == (3int, 'p', 'y', 'h'),
        name_key("nvs"@) == (3int, 'n', 's', 'v'),
        name_key("coredump"@) == (8int, 'c', 'p', 'm'),
        name_key("nvs_keys"@) == (8int, 'n', 's', 'y'),
        name_key("efuse"@) == (5int, 'e', 'e', 's'),
        name_key("undefined"@) == (9int, 'u', 'd', 'e'),
        name_key("esphttpd"@) == (8int, 'e', 'd', 'p'),
        name_key("fat"@) == (3int, 'f', 't', 'a'),
        name_key("spiffs"@) == (6int, 's', 's', 'f'),
        name_key("littlefs"@) == (8int, 'l', 's', 'f'),
        name_key("app"@) == (3int, 'a', 'p', 'p'),
        name_key("data"@) == (4int, 'd', 'a', 't'),
{
    reveal_strlit("factory");
    reveal_strlit("ota_0");
    reveal_strlit("ota_1");
    reveal_strlit("ota_2");
    reveal_strlit("ota_3");
    reveal_strlit("ota_4");
    reveal_strlit("ota_5");
    reveal_strlit("ota_6");
    reveal_strlit("ota_7");
    reveal_strlit("ota_8");
    reveal_strlit("ota_9");
    reveal_strlit("ota_10");
    reveal_strlit("ota_11");
    reveal_strlit("ota_12");
    reveal_strlit("ota_13");
    reveal_strlit("ota_14");
    reveal_strlit("ota_15");
    reveal_strlit("test");
    reveal_strlit("ota");
    reveal_strlit("phy");
    reveal_strlit("nvs");
    reveal_strlit("coredump");
    reveal_strlit("nvs_keys");
    reveal_strlit("efuse");
    reveal_strlit("undefined");
    reveal_strlit("esphttpd");
    reveal_strlit("fat");
    reveal_strlit("spiffs");
    reveal_strlit("littlefs");
    reveal_strlit("app");
    reveal_strlit("data");
}

/// The value of a digit that `hex_char` writes.
proof fn lemma_hex_char(d: nat)
    requires
        d < 16,
    ensures
        hex_digit_value(hex_char(d)) == Some(d),
{
}

/// The digits that `hex_digits` writes are hexadecimal digits of the value.
pub proof fn lemma_hex_digits(x: nat)
    ensures
        hex_digits(x).len() > 0,
        all_hex_digits(hex_digits(x)),
        hex_value(hex_digits(x)) == x,
    decreases x,
{
    lemma_hex_char(x % 16);
    if x >= 16 {
        lemma_hex_digits(x / 16);
        let d = hex_digits(x);
        assert(d.drop_last() =~= hex_digits(x / 16));
        assert(d.last() == hex_char(x % 16));
        assert(x == (x / 16) * 16 + x % 16);
        assert(hex_value(d) == hex_value(hex_digits(x / 16)) * 16 + x % 16);
        assert forall|k: int| 0 <= k < d.len() implies (#[trigger] hex_digit_value(d[k])) is Some by {
            if k < d.len() - 1 {
                assert(d[k] == hex_digits(x / 16)[k]);
            }
        }
    } else {
        let d = hex_digits(x);
        assert(d.drop_last() =~= Seq::<char>::empty());
        assert(hex_value(d.drop_last()) == 0);
        assert(hex_value(d) == x);
    }
}

/// `0x` and hexadecimal digits read back as the written value.
pub proof fn lemma_hex_text(x: u32)
    ensures
        int_u32_of(hex_text(x as nat)) == Some(x),
        hex_text(x as nat).len() > 0,
{
    lemma_hex_digits(x as nat);
    assert(hex_text(x as nat).skip(2) =~= hex_digits(x as nat));
}

/// A byte written as `0x` and two digits reads back as the byte, and names
/// no sub-type.
pub proof fn lemma_byte_text(n: u8)
    ensures
        int_u8_of(byte_text(n)) == Some(n),
        app_type_of_name(byte_text(n)) is None,
        data_type_of_name(byte_text(n)) is None,
        byte_text(n) != "app"@,
        byte_text(n) != "data"@,
{
    let s = byte_text(n);
    lemma_hex_char(n as nat / 16);
    lemma_hex_char(n as nat % 16);
    assert(s.skip(2) =~= seq![hex_char(n as nat / 16), hex_char(n as nat % 16)]);
    assert(s.skip(2).drop_last() =~= seq![hex_char(n as nat / 16)]);
    assert(s.skip(2).drop_last().drop_last() =~= Seq::<char>::empty());
    assert(hex_value(s.skip(2).drop_last().drop_last()) == 0);
    assert(hex_value(s.skip(2).drop_last()) == n as nat / 16);
    assert(hex_value(s.skip(2)) == (n as nat / 16) * 16 + n as nat % 16);
    assert(hex_value(s.skip(2)) == n);
    lemma_name_keys();
    assert(s[0] == '0');
    assert(name_key(s).1 == '0');
}

/// An `app` sub-type's name reads back as that sub-type.
pub proof fn lemma_app_type_name(a: AppType)
    ensures
        app_type_of_name(app_type_name(a)) == Some(a),
{
    lemma_name_keys();
    match a {
        AppType::Factory => {},
        AppType::Ota_0 => {},
        AppType::Ota_1 => {},
        AppType::Ota_2 => {},
        AppType::Ota_3 => {},
        AppType::Ota_4 => {},
        AppType::Ota_5 => {},
        AppType::Ota_6 => {},
        AppType::Ota_7 => {},
        AppType::Ota_8 => {},
        AppType::Ota_9 => {},
        AppType::Ota_10 => {},
        AppType::Ota_11 => {},
        AppType::Ota_12 => {},
        AppType::Ota_13 => {},
        AppType::Ota_14 => {},
        AppType::Ota_15 => {},
        AppType::Test => {},
    }
}

/// A `data` sub-type's name reads back as that sub-type, and names no `app`
/// sub-type.
pub proof fn lemma_data_type_name(d: DataType)
    ensures
        app_type_of_name(data_type_name(d)) is None,
        data_type_of_name(data_type_name(d)) == Some(d),
{
    lemma_name_keys();
    match d {
        DataType::Ota => {},
        DataType::Phy => {},
        DataType::Nvs => {},
        DataType::Coredump => {},
        DataType::NvsKeys => {},
        DataType::EfuseEm => {},
        DataType::Undefined => {},
        DataType::Esphttpd => {},
        DataType::Fat => {},
        DataType::Spiffs => {},
        DataType::Littlefs => {},
    }
}

/// The type column of a partition reads back as its type.
pub proof fn lemma_type_text(ty: Type)
    requires
        type_is_canonical(ty),
    ensures
        type_of_text(type_text(ty)) == Ok::<Type, ErrorView>(ty),
{
    reveal_strlit("app");
    reveal_strlit("data");
    match ty {
        Type::App => {},
        Type::Data => {
            assert(is_hex_literal("data"@) == false);
            assert(has_no_dec_digit("data"@));
        },
        Type::Custom(n) => {
            lemma_byte_text(n);
        },
    }
}

/// The sub-type column of a partition reads back as its sub-type.
pub proof fn lemma_subtype_text(ty: Type, st: SubType)
    requires
        subtype_matches_type(ty, st),
    ensures
        subtype_of_text(subtype_text(st)) matches Ok(parsed) && normalized_subtype(ty, parsed)
            == Ok::<SubType, ErrorView>(st),
{
    lemma_subtype_code(ty, st);
    match st {
        SubType::App(a) => {
            lemma_app_type_name(a);
        },
        SubType::Data(d) => {
            lemma_data_type_name(d);
        },
        SubType::Custom(n) => {
            lemma_byte_text(n);
        },
    }
}

/// `split_colon` of a string without a colon is that string alone.
proof fn lemma_split_no_colon(s: Seq<char>, t: Seq<char>)
    requires
        forall|k: int| 0 <= k < t.len() ==> t[k] != ':',
    ensures
        split_colon(s + t) == split_colon(s).update(
            split_colon(s).len() - 1,
            split_colon(s).last() + t,
        ),
    decreases t.len(),
{
    lemma_split_colon_len(s);
    if t.len() == 0 {
        assert(s + t =~= s);
        assert(split_colon(s).last() + t =~= split_colon(s).last());
        assert(split_colon(s).update(split_colon(s).len() - 1, split_colon(s).last())
            =~= split_colon(s));
    } else {
        let u = t.drop_last();
        assert forall|k: int| 0 <= k < u.len() implies u[k] != ':' by {
            assert(u[k] == t[k]);
        }
        lemma_split_no_colon(s, u);
        assert((s + t).drop_last() =~= s + u);
        assert((s + t).last() == t.last());
        assert(t.last() != ':');
        lemma_split_colon_len(s + u);
        let big = split_colon(s);
        let rest = split_colon(s + u);
        assert(rest == big.update(big.len() - 1, big.last() + u));
        assert(rest.len() == big.len());
        assert(rest.last() == big.last() + u);
        assert(split_colon(s + t) == rest.update(rest.len() - 1, rest.last().push(t.last())));
        assert((big.last() + u).push(t.last()) =~= big.last() + t);
        assert(split_colon(s + t) =~= split_colon(s).update(
            split_colon(s).len() - 1,
            split_colon(s).last() + t,
        ));
    }
}

proof fn lemma_split_colon_len(s: Seq<char>)
    ensures
        split_colon(s).len() >= 1,
    decreases s.len(),
{
    if s.len() > 0 {
        lemma_split_colon_len(s.drop_last());
    }
}

/// The flags column of a partition reads back as its flags.
pub proof fn lemma_flags_text(f: Flags)
    requires
        f.wf(),
    ensures
        flags_of_text(flags_text(f)) == Ok::<Flags, ErrorView>(f),
{
    reveal_strlit("encrypted");
    reveal_strlit("readonly");
    reveal_strlit(":");
    let e = "encrypted"@;
    let r = "readonly"@;
    let empty = Seq::<char>::empty();
    assert(split_colon(empty) == seq![empty]);
    lemma_split_no_colon(empty, e);
    assert(empty + e =~= e);
    assert(split_colon(e) =~= seq![e]);
    lemma_split_no_colon(empty, r);
    assert(empty + r =~= r);
    assert(split_colon(r) =~= seq![r]);
    let ec = e + ":"@;
    assert(ec.drop_last() =~= e);
    assert(split_colon(ec) =~= seq![e, empty]);
    lemma_split_no_colon(ec, r);
    assert(empty + r =~= r);
    assert(split_colon(ec + r) =~= seq![e, r]);
    assert(e != r);
    let toks = split_colon(flags_text(f));
    if f.spec_encrypted() && f.spec_readonly() {
        assert(toks[0] == e && toks[1] == r);
    } else if f.spec_encrypted() {
        assert(toks[0] == e);
    } else if f.spec_readonly() {
        assert(toks[0] == r);
    }
}

/// The name column of a partition whose name a record can hold reads back as
/// the name.
pub proof fn lemma_name_text(name: Seq<char>)
    requires
        encode_utf8(name).len() <= MAX_NAME_LEN,
        name.len() > 0 ==> name[0] != '\0' && name.last() != '\0',
    ensures
        trim_nul(name_field_of(name)) == name,
{
    lemma_fitting_whole_name(name, 0);
    assert(name.take(name.len() as int) =~= name);
    lemma_trim_padded_name(name, (MAX_NAME_LEN + 1 - encode_utf8(name).len()) as nat);
}

/// A name that fits in 16 bytes is kept whole.
proof fn lemma_fitting_whole_name(name: Seq<char>, k: nat)
    requires
        encode_utf8(name).len() <= MAX_NAME_LEN,
        k <= name.len(),
    ensures
        fitting_chars(name, k) == name.len(),
    decreases name.len() - k,
{
    if k < name.len() {
        let head = name.take(k + 1 as int);
        lemma_encode_utf8_concat(head, name.skip(k + 1 as int));
        assert(head + name.skip(k + 1 as int) =~= name);
        lemma_fitting_whole_name(name, (k + 1) as nat);
    }
}

/// The row of a partition that a record can hold reads back as that
/// partition, whatever the cursor, and moves the cursor past it.
pub proof fn lemma_row_round_trip(p: PartitionView, cursor: int)
    requires
        partition_wf(p),
    ensures
        row_of(row_fields(p), cursor) == Ok::<(PartitionView, int), ErrorView>(
            (p, p.offset + p.size),
        ),
{
    let row = row_fields(p);
    lemma_type_text(p.ty);
    lemma_subtype_text(p.ty, p.subtype);
    lemma_hex_text(p.offset);
    lemma_hex_text(p.size);
    lemma_flags_text(p.flags);
    lemma_name_text(p.name);
    assert(offset_of_text(row[3]) == Ok::<Option<u32>, ErrorView>(Some(p.offset)));
    assert(size_of_text(row[4]) == Ok::<u32, ErrorView>(p.size));
    assert(row_flags(row) == Ok::<Flags, ErrorView>(p.flags));
}

/// Reading the rows of `t` from row `i` on, with the partitions before it,
/// gives back `t`, whatever the cursor.
proof fn lemma_rows_from(t: Seq<PartitionView>, i: nat, cursor: int)
    requires
        i <= t.len(),
        forall|k: int| 0 <= k < t.len() ==> partition_wf(#[trigger] t[k]),
    ensures
        rows_from(t.map_values(|p: PartitionView| row_fields(p)), i, cursor, t.take(i as int))
            == Ok::<Seq<PartitionView>, ErrorView>(t),
    decreases t.len() - i,
{
    let rows = t.map_values(|p: PartitionView| row_fields(p));
    if i < t.len() {
        let p = t[i as int];
        assert(rows[i as int] == row_fields(p));
        lemma_row_round_trip(p, cursor);
        assert(!is_blank_row(rows[i as int]));
        assert(t.take(i + 1 as int) =~= t.take(i as int).push(p));
        lemma_rows_from(t, (i + 1) as nat, p.offset + p.size);
    } else {
        assert(t.take(i as int) =~= t);
    }
}

/// Round trip of the text format, at the level of rows: the rows that
/// `to_csv` hands the csv writer for a valid table, whose partitions records
/// can hold, read back as the table.
pub proof fn lemma_text_rows_round_trip(t: Seq<PartitionView>)
    requires
        table_valid(t),
        forall|k: int| 0 <= k < t.len() ==> partition_wf(#[trigger] t[k]),
    ensures
        table_from_rows(t.map_values(|p: PartitionView| row_fields(p))) == Ok::<
            Seq<PartitionView>,
            ErrorView,
        >(t),
{
    lemma_rows_from(t, 0, DEFAULT_CURSOR as int);
    assert(t.take(0) =~= Seq::<PartitionView>::empty());
}

/// Validation can be repeated: two validations of the same table have the
/// same outcome, and a table that a decoder returned passes validation again.
pub proof fn lemma_validation_idempotent(
    t: Seq<PartitionView>,
    first: Result<(), ErrorView>,
    second: Result<(), ErrorView>,
)
    requires
        first == validate_table(t),
        second == validate_table(t),
    ensures
        first == second,
        forall|data: Seq<u8>|
            #[trigger] table_from_binary(data) == Ok::<Seq<PartitionView>, ErrorView>(t)
                ==> validate_table(t) == Ok::<(), ErrorView>(()),
        forall|rows: Seq<Seq<Seq<char>>>|
            #[trigger] table_from_rows(rows) == Ok::<Seq<PartitionView>, ErrorView>(t)
                ==> validate_table(t) == Ok::<(), ErrorView>(()),
{
}

/// Binary data whose length is not a multiple of 32 is rejected with
/// `LengthNotMultipleOf32`.
pub proof fn lemma_length_not_multiple_of_32(data: Seq<u8>)
    requires
        data.len() % 32 != 0,
    ensures
        decode_binary(data) == Err::<Seq<PartitionView>, ErrorView>(
            ErrorView::LengthNotMultipleOf32,
        ),
        table_from_binary(data) == Err::<Seq<PartitionView>, ErrorView>(
            ErrorView::LengthNotMultipleOf32,
        ),
{
}

/// Some record of the data is the end marker.
pub open spec fn has_end_marker(data: Seq<u8>) -> bool {
    exists|i: nat| i * 32 + 32 <= data.len() && is_end_marker(#[trigger] record_at(data, i))
}

/// Every record of the data is a partition record that parses.
pub open spec fn all_partition_records(data: Seq<u8>) -> bool {
    forall|i: nat|
        i * 32 + 32 <= data.len() ==> !is_checksum_record(#[trigger] record_at(data, i))
            && parse_record(record_at(data, i)) is Ok
}

/// An error that a single record causes: a bad magic, an unknown sub-type or
/// a checksum that does not match.
pub open spec fn is_record_error(e: ErrorView) -> bool {
    e is InvalidMagic || e is UnknownSubtype || e is InvalidChecksum
}

proof fn lemma_scan_without_end_marker(
    data: Seq<u8>,
    i: nat,
    hashed: Seq<u8>,
    parts: Seq<PartitionView>,
)
    requires
        !has_end_marker(data),
    ensures
        scan_records(data, i, hashed, parts) matches Err(e) && (e is NoEndMarker
            || is_record_error(e)),
        all_partition_records(data) ==> scan_records(data, i, hashed, parts) == Err::<
            Seq<PartitionView>,
            ErrorView,
        >(ErrorView::NoEndMarker),
    decreases data.len() - i * 32,
{
    if data.len() >= i * 32 + 32 {
        let rec = record_at(data, i);
        assert(!is_end_marker(rec));
        if is_checksum_record(rec) {
            lemma_scan_without_end_marker(data, i + 1, hashed, parts);
        } else {
            match parse_record(rec) {
                Ok(p) => lemma_scan_without_end_marker(data, i + 1, hashed + rec, parts.push(p)),
                Err(e) => {
                    assert(is_record_error(e));
                },
            }
        }
    }
}

/// Binary data without an end-marker record never decodes: it fails with
/// `NoEndMarker` unless its length or one of its records is at fault first,
/// and with `NoEndMarker` itself where its length is a multiple of 32 and
/// every record is a partition record that parses.
pub proof fn lemma_no_end_marker(data: Seq<u8>)
    requires
        !has_end_marker(data),
    ensures
        decode_binary(data) matches Err(e) && (e is NoEndMarker || e is LengthNotMultipleOf32
            || is_record_error(e)),
        data.len() % 32 == 0 && all_partition_records(data) ==> decode_binary(data) == Err::<
            Seq<PartitionView>,
            ErrorView,
        >(ErrorView::NoEndMarker),
{
    lemma_scan_without_end_marker(data, 0, seq![], seq![]);
}

} // verus!
