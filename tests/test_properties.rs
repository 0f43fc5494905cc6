use esp_idf_part::{
    decode_partitions, fix_offset, AppType, DataType, Error, Flags, Partition, PartitionTable,
    SubType, Type,
};

fn text_table(rows: &str) -> Result<PartitionTable, Error> {
    PartitionTable::try_from_str(rows)
}

fn sample() -> PartitionTable {
    PartitionTable::new(vec![
        Partition::new("nvs", Type::Data, SubType::Data(DataType::Nvs), 0x9000, 0x4000, Flags::empty()),
        Partition::new("otadata", Type::Data, SubType::Data(DataType::Ota), 0xd000, 0x2000, Flags::empty()),
        Partition::new("factory", Type::App, SubType::App(AppType::Factory), 0x10000, 0x100000, Flags::empty()),
        Partition::new("ota_0", Type::App, SubType::App(AppType::Ota_0), 0x110000, 0x100000, Flags::encrypted()),
        Partition::new("keys", Type::Data, SubType::Data(DataType::NvsKeys), 0x210000, 0x1000, Flags::all()),
        Partition::new("custom", Type::Custom(0x40), SubType::Custom(0x05), 0x211000, 0x3000, Flags::readonly()),
    ])
}

#[test]
fn binary_round_trip_gives_the_table_back() {
    let table = sample();
    assert!(table.validate().is_ok());
    let bin = table.to_bin().unwrap();
    assert_eq!(bin.len(), 0xC00);
    let back = PartitionTable::try_from_bytes(&bin).unwrap();
    assert_eq!(back, table);
    let back = PartitionTable::try_from(bin).unwrap();
    assert_eq!(back, table);
}

#[test]
fn text_round_trip_gives_the_table_back() {
    let table = sample();
    let csv = table.to_csv().unwrap();
    let back = PartitionTable::try_from_str(&csv).unwrap();
    assert_eq!(back, table);
}

#[test]
fn text_encoding_is_exact() {
    let table = sample();
    let csv = table.to_csv().unwrap();
    let expected = "# ESP-IDF Partition Table\n\
                    # Name,Type,SubType,Offset,Size,Flags\n\
                    nvs,data,nvs,0x9000,0x4000,\n\
                    otadata,data,ota,0xd000,0x2000,\n\
                    factory,app,factory,0x10000,0x100000,\n\
                    ota_0,app,ota_0,0x110000,0x100000,encrypted\n\
                    keys,data,nvs_keys,0x210000,0x1000,encrypted:readonly\n\
                    custom,0x40,0x05,0x211000,0x3000,readonly\n";
    assert_eq!(csv, expected);
}

#[test]
fn binary_encoding_is_exact() {
    let table = PartitionTable::new(vec![Partition::new(
        "factory",
        Type::App,
        SubType::App(AppType::Ota_1),
        0x10000,
        0x100000,
        Flags::encrypted(),
    )]);
    let bin = table.to_bin().unwrap();
    let mut record = vec![0xAA, 0x50, 0x00, 0x11, 0x00, 0x00, 0x01, 0x00, 0x00, 0x00, 0x10, 0x00];
    record.extend_from_slice(b"factory\0\0\0\0\0\0\0\0\0");
    record.extend_from_slice(&[0x01, 0x00, 0x00, 0x00]);
    assert_eq!(&bin[..32], &record[..]);
    assert_eq!(&bin[32..34], &[0xEB, 0xEB]);
    assert!(bin[34..48].iter().all(|b| *b == 0xFF));
    assert!(bin[64..].iter().all(|b| *b == 0xFF));
}

#[test]
fn checksum_of_an_empty_table_is_the_md5_of_nothing() {
    let table = PartitionTable::new(vec![]);
    let bin = table.to_bin().unwrap();
    let md5_of_nothing = [
        0xd4, 0x1d, 0x8c, 0xd9, 0x8f, 0x00, 0xb2, 0x04, 0xe9, 0x80, 0x09, 0x98, 0xec, 0xf8, 0x42,
        0x7e,
    ];
    assert_eq!(&bin[16..32], &md5_of_nothing[..]);
    assert!(matches!(decode_partitions(&bin), Ok(parts) if parts.is_empty()));
}

#[test]
fn validation_is_repeatable() {
    let table = sample();
    assert!(table.validate().is_ok());
    assert!(table.validate().is_ok());
    let bad = text_table("factory, app, factory, 0x10000, 1M\nother, app, factory, 0x110000, 1M\n");
    assert!(matches!(bad, Err(Error::MultipleFactoryPartitions)));
    let table = PartitionTable::new(vec![
        Partition::new("a", Type::App, SubType::App(AppType::Factory), 0x10000, 0x10000, Flags::empty()),
        Partition::new("a", Type::App, SubType::App(AppType::Ota_0), 0x20000, 0x10000, Flags::empty()),
    ]);
    assert!(matches!(table.validate(), Err(Error::DuplicatePartitions(n)) if n == "a"));
    assert!(matches!(table.validate(), Err(Error::DuplicatePartitions(n)) if n == "a"));
}

#[test]
fn length_not_multiple_of_32_is_rejected() {
    let mut bin = sample().to_bin().unwrap();
    bin.push(0xFF);
    assert!(matches!(PartitionTable::try_from_bytes(&bin), Err(Error::LengthNotMultipleOf32)));
    assert!(matches!(decode_partitions(&[0xAA; 33]), Err(Error::LengthNotMultipleOf32)));
}

#[test]
fn missing_end_marker_is_rejected() {
    let bin = sample().to_bin().unwrap();
    // The six records and the checksum record, without the padding.
    let cut = &bin[..7 * 32];
    assert!(matches!(PartitionTable::try_from_bytes(cut), Err(Error::NoEndMarker)));
    let records = &bin[..6 * 32];
    assert!(matches!(decode_partitions(records), Err(Error::NoEndMarker)));
    assert!(matches!(decode_partitions(&[]), Err(Error::NoEndMarker)));
}

#[test]
fn flipped_byte_fails_the_checksum() {
    let mut bin = sample().to_bin().unwrap();
    // A byte of the first record's name.
    bin[13] ^= 0x01;
    match PartitionTable::try_from_bytes(&bin) {
        Err(Error::InvalidChecksum { expected, computed }) => {
            assert_eq!(expected, bin[6 * 32 + 16..7 * 32].to_vec());
            assert_ne!(expected, computed);
            assert_eq!(computed.len(), 16);
        }
        other => panic!("expected InvalidChecksum, found {other:?}"),
    }
}

#[test]
fn no_app_row_and_one_factory_row() {
    let none = text_table("nvs, data, nvs, 0x9000, 0x6000\n");
    assert!(matches!(none, Err(Error::NoAppPartition)));
    let one = text_table("factory, app, factory, 0x10000, 1M\nota_0, app, ota_0, 0x110000, 1M\n");
    assert!(one.is_ok());
}

#[test]
fn two_factory_rows_fail() {
    let two = text_table("a, app, factory, 0x10000, 1M\nb, app, factory, 0x110000, 1M\n");
    assert!(matches!(two, Err(Error::MultipleFactoryPartitions)));
}

#[test]
fn otadata_size_must_be_0x2000() {
    let bad = text_table("otadata, data, ota, 0xd000, 0x1000\nfactory, app, factory, 0x10000, 1M\n");
    assert!(matches!(bad, Err(Error::InvalidOtadataPartitionSize)));
    let good = text_table("otadata, data, ota, 0xd000, 0x2000\nfactory, app, factory, 0x10000, 1M\n");
    assert!(good.is_ok());
}

#[test]
fn app_offset_must_be_aligned() {
    let bad = text_table("factory, app, factory, 0x9000, 1M\n");
    assert!(matches!(bad, Err(Error::UnalignedPartition)));
    let good = text_table("factory, app, factory, 0x10000, 1M\n");
    assert!(good.is_ok());
    let data = text_table("factory, app, factory, 0x10000, 1M\nnvs, data, nvs, 0x9800, 0x100\n");
    assert!(matches!(data, Err(Error::UnalignedPartition)));
}

#[test]
fn overlapping_and_adjacent_rows() {
    let overlap = text_table("a, app, factory, 0x10000, 0x10000\nb, data, nvs, 0x18000, 0x10000\n");
    assert!(matches!(overlap, Err(Error::OverlappingPartitions(a, b)) if a == "a" && b == "b"));
    let adjacent = text_table("a, app, factory, 0x10000, 0x10000\nb, data, nvs, 0x20000, 0x10000\n");
    assert!(adjacent.is_ok());
}

#[test]
fn auto_offset_from_the_default_cursor() {
    assert_eq!(fix_offset(Type::Data, None, 0x6000, 0x9000), Some((0x9000, 0xF000)));
    assert_eq!(fix_offset(Type::App, None, 0x1000, 0xF000), Some((0x10000, 0x11000)));
    assert_eq!(fix_offset(Type::Data, None, 0x10, 0x9001), Some((0x9004, 0x9014)));
    assert_eq!(fix_offset(Type::App, Some(0x9000), 0x10, 0x20000), Some((0x9000, 0x9010)));
    assert_eq!(fix_offset(Type::App, None, 0x10, 0xFFFF_0001), None);
    let table = text_table("nvs, data, nvs, , 0x6000\nphy, data, phy, , 0x1000\nfactory, app, factory, , 1M\n")
        .unwrap();
    let offsets: Vec<u32> = table.partitions().iter().map(|p| p.offset()).collect();
    assert_eq!(offsets, vec![0x9000, 0xF000, 0x10000]);
}

#[test]
fn row_order_changes_assigned_offsets() {
    let a = text_table("factory, app, factory, , 0x10000\nnvs, data, nvs, , 0x1000\n").unwrap();
    assert_eq!(a.find("nvs").unwrap().offset(), 0x20000);
    let b = text_table("nvs, data, nvs, , 0x1000\nfactory, app, factory, , 0x10000\n").unwrap();
    assert_eq!(b.find("nvs").unwrap().offset(), 0x9000);
}

#[test]
fn find_by_type_and_subtype() {
    let table = sample();
    assert_eq!(table.find_by_type(Type::App).unwrap().name(), "factory");
    assert_eq!(
        table.find_by_subtype(Type::App, SubType::App(AppType::Ota_0)).unwrap().name(),
        "ota_0"
    );
    assert!(table.find_by_subtype(Type::Data, SubType::Data(DataType::Fat)).is_none());
    assert!(table.find("missing").is_none());
    assert_eq!(table.find("keys").unwrap().flags(), Flags::all());
}

#[test]
fn text_errors() {
    assert!(matches!(text_table("factory, app, factory, 0x10000\n"), Err(Error::MissingColumns)));
    assert!(matches!(text_table("f, apps, factory, 0x10000, 1M\n"), Err(Error::InvalidType(_))));
    assert!(matches!(text_table("f, app, fact, 0x10000, 1M\n"), Err(Error::InvalidSubtype(_))));
    assert!(matches!(text_table("f, app, factory, 0x1g, 1M\n"), Err(Error::InvalidOffset(_))));
    assert!(matches!(text_table("f, app, factory, 0x10000, \n"), Err(Error::InvalidSize(_))));
    assert!(matches!(text_table("f, app, factory, 0x10000, 1M, secret\n"), Err(Error::InvalidFlags(_))));
    assert!(matches!(
        text_table("f, app, nvs_keys, 0x10000, 1M\n"),
        Err(Error::UnknownSubtype { ty: 0, subtype: 4 })
    ));
    assert!(matches!(
        text_table("a, data, nvs, 0xFFFFF000, 0x2000\nb, data, nvs, , 0x10\n"),
        Err(Error::OffsetOverflow)
    ));
}

#[test]
fn numeric_subtypes_are_read_under_their_type() {
    let table = text_table("f, 0, 0x10, 0x10000, 1M\nd, 1, 2, 0x9000, 0x1000\n").unwrap();
    assert_eq!(table.partitions()[0].subtype(), SubType::App(AppType::Ota_0));
    assert_eq!(table.partitions()[1].subtype(), SubType::Data(DataType::Nvs));
}

#[test]
fn binary_errors() {
    let mut bin = sample().to_bin().unwrap();
    bin[0] = 0x00;
    assert!(matches!(decode_partitions(&bin), Err(Error::InvalidMagic)));
    let mut bin = sample().to_bin().unwrap();
    // The sub-type of the third record, an `app` record.
    bin[2 * 32 + 3] = 0x05;
    assert!(matches!(decode_partitions(&bin), Err(Error::UnknownSubtype { ty: 0, subtype: 5 })));
    let many: Vec<Partition> = (0..96u32)
        .map(|i| {
            Partition::new("p", Type::Data, SubType::Data(DataType::Nvs), 0x1000 * i, 0x1000, Flags::empty())
        })
        .collect();
    assert!(matches!(PartitionTable::new(many).to_bin(), Err(Error::TooManyPartitions)));
}

#[test]
fn auto_detection_of_the_format() {
    assert!(matches!(PartitionTable::try_from(vec![0x66, 0xFF, 0xFE]), Err(Error::InvalidUtf8)));
    assert!(matches!(PartitionTable::try_from(vec![0x23]), Err(Error::NoAppPartition)));
    assert!(matches!(PartitionTable::try_from(vec![]), Err(Error::NoAppPartition)));
    assert!(matches!(PartitionTable::try_from(vec![0xAA, 0x50]), Err(Error::LengthNotMultipleOf32)));
}

#[test]
fn type_and_subtype_conversions() {
    assert_eq!(Type::from(0x00), Type::App);
    assert_eq!(Type::from(0x01), Type::Data);
    assert_eq!(Type::from(0x40), Type::Custom(0x40));
    assert_eq!(u8::from(Type::Custom(0x40)), 0x40);
    assert_eq!(u8::from(SubType::App(AppType::Test)), 0x20);
    assert_eq!(u8::from(SubType::Data(DataType::Littlefs)), 0x83);
    assert_eq!(SubType::from(AppType::Ota_3), SubType::App(AppType::Ota_3));
    assert_eq!(SubType::from(DataType::Fat), SubType::Data(DataType::Fat));
    assert_eq!(SubType::from(7u8), SubType::Custom(7));
    assert_eq!(SubType::app(0x1F), SubType::App(AppType::Ota_15));
    assert_eq!(SubType::data(0x81), SubType::Data(DataType::Fat));
    assert_eq!(Type::Custom(0x02).to_string(), "0x02");
    assert_eq!(SubType::Data(DataType::EfuseEm).to_string(), "efuse");
    assert_eq!(Type::App.subtype_hint(), "'factory', 'ota_0' through 'ota_15', or 'test'");
    assert_eq!(
        Type::Data.subtype_hint(),
        "'ota', 'phy', 'nvs', 'coredump', 'nvs_keys', 'efuse', 'undefined', 'esphttpd', 'fat', 'spiffs', and 'littlefs'"
    );
    assert_eq!(Type::Custom(9).subtype_hint(), "0x02 through 0xFE");
}

#[test]
fn names_are_trimmed_of_nul_and_quoted_when_needed() {
    let table = PartitionTable::new(vec![
        Partition::new("with,comma", Type::App, SubType::App(AppType::Factory), 0x10000, 0x1000, Flags::empty()),
    ]);
    let csv = table.to_csv().unwrap();
    assert!(csv.ends_with("\"with,comma\",app,factory,0x10000,0x1000,\n"));
    let back = PartitionTable::try_from_str(&csv).unwrap();
    assert_eq!(back, table);
    let mut record = Vec::new();
    table.partitions()[0].write_bin(&mut record);
    assert_eq!(record.len(), 32);
    assert_eq!(&record[12..22], b"with,comma");
}

#[test]
fn a_full_image_has_no_room_for_the_end_marker() {
    let many: Vec<Partition> = (0..95u32)
        .map(|i| {
            Partition::new("p", Type::Data, SubType::Data(DataType::Nvs), 0x1000 * i, 0x1000, Flags::empty())
        })
        .collect();
    let bin = PartitionTable::new(many).to_bin().unwrap();
    assert_eq!(bin.len(), 0xC00);
    assert!(matches!(decode_partitions(&bin), Err(Error::NoEndMarker)));
}
