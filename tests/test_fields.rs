use esp_idf_part::{
    parse_flags, parse_name, parse_offset_or_size, parse_subtype, parse_type, suffixed_size,
    AppType, DataType, Error, Flags, SubType, Type,
};

fn check_name() {
    assert_eq!(parse_name("factory"), String::from("factory\0\0\0\0\0\0\0\0\0\0"));

    // Make sure long names are truncated!
    let result = parse_name("areallylongpartitionname");
    assert_eq!(result, String::from("areallylongparti\0"));
    assert_eq!(result.len(), 17);
}

fn check_type() {
    assert_eq!(parse_type("app").unwrap(), Type::App);
    assert_eq!(parse_type("data").unwrap(), Type::Data);
    assert_eq!(parse_type("0x40").unwrap(), Type::Custom(0x40));

    // Make sure 0x00 and 0x01 map to Type::App and Type::Data respectively if
    // provided
    assert_eq!(parse_type("0x00").unwrap(), Type::App);
    assert_eq!(parse_type("0x01").unwrap(), Type::Data);
}

fn check_subtype() {
    assert_eq!(parse_subtype("factory").unwrap(), SubType::App(AppType::Factory));
    assert_eq!(parse_subtype("nvs").unwrap(), SubType::Data(DataType::Nvs));
    assert_eq!(parse_subtype("0x40").unwrap(), SubType::Custom(0x40));
}

fn check_flags() {
    assert_eq!(parse_flags("encrypted").unwrap(), Flags::encrypted());
    assert_eq!(parse_flags("").unwrap(), Flags::empty());
    // An unknown token is a format error.
    assert!(matches!(parse_flags("foo"), Err(Error::InvalidFlags(s)) if s == "foo"));
}

fn check_offset_or_size() {
    assert_eq!(parse_offset_or_size("16384").unwrap(), Some(16384));
    assert_eq!(parse_offset_or_size("0x9000").unwrap(), Some(0x9000));
    assert_eq!(parse_offset_or_size("4k").unwrap(), Some(4096));
    assert_eq!(parse_offset_or_size("1M").unwrap(), Some(1024 * 1024));

    // Offsets can optionally be omitted in some cases
    assert_eq!(parse_offset_or_size("").unwrap(), None);
}

#[test]
fn partition_test_deserialize_partition_name() {
    check_name();
}

#[test]
fn partition_test_deserialize_partition_type() {
    check_type();
}

#[test]
fn partition_test_deserialize_partition_subtype() {
    check_subtype();
}

#[test]
fn partition_test_deserialize_partition_flags() {
    check_flags();
}

#[test]
fn partition_test_deserialize_partition_offset_or_size() {
    check_offset_or_size();
}

#[test]
fn de_test_deserialize_partition_name() {
    check_name();
}

#[test]
fn de_test_deserialize_partition_type() {
    check_type();
}

#[test]
fn de_test_deserialize_partition_subtype() {
    check_subtype();
}

#[test]
fn de_test_deserialize_partition_flags() {
    check_flags();
}

#[test]
fn de_test_deserialize_partition_offset_or_size() {
    check_offset_or_size();
}

#[test]
fn flags_combine_in_either_order() {
    let both = parse_flags("encrypted:readonly").unwrap();
    assert_eq!(both, parse_flags("readonly:encrypted").unwrap());
    assert_eq!(both, Flags::all());
    assert_eq!(both.bits(), 0b11);
    assert!(both.contains(Flags::readonly()));
    assert_eq!(both.to_string(), "encrypted:readonly");
    assert!(matches!(parse_flags("encrypted:"), Err(Error::InvalidFlags(_))));
}

#[test]
fn sizes_with_suffixes_and_errors() {
    assert_eq!(parse_offset_or_size("528K").unwrap(), Some(528 * 1024));
    assert_eq!(parse_offset_or_size("0b101").unwrap(), Some(5));
    assert_eq!(parse_offset_or_size("4095M").unwrap(), Some(4095 * 1024 * 1024));
    assert!(matches!(parse_offset_or_size("4096M"), Err(Error::InvalidOffset(_))));
    assert!(matches!(parse_offset_or_size("4g"), Err(Error::InvalidOffset(_))));
    assert!(matches!(parse_offset_or_size("k"), Err(Error::InvalidOffset(_))));
    assert!(matches!(parse_offset_or_size("0x1_0000_0000"), Err(Error::InvalidOffset(_))));
}

#[test]
fn type_and_subtype_errors() {
    assert!(matches!(parse_type("apps"), Err(Error::InvalidType(s)) if s == "apps"));
    assert!(matches!(parse_type("0x100"), Err(Error::InvalidType(_))));
    assert!(matches!(parse_subtype("Factory"), Err(Error::InvalidSubtype(_))));
    assert_eq!(parse_subtype("efuse").unwrap(), SubType::Data(DataType::EfuseEm));
    assert_eq!(parse_subtype("ota_15").unwrap(), SubType::App(AppType::Ota_15));
}

#[test]
fn names_are_cut_by_character() {
    // Eighteen two-byte characters: the eight that fit in 16 bytes are kept,
    // then one NUL pads them to 17 bytes.
    let name = parse_name("éééééééééééééééééé");
    assert_eq!(name, format!("{}\0", "é".repeat(8)));
    // Fifteen one-byte characters and a two-byte one: the last one does not
    // fit and is dropped whole.
    let name = parse_name("aaaaaaaaaaaaaaaé");
    assert_eq!(name, format!("{}\0\0", "a".repeat(15)));
    assert_eq!(name.len(), 17);
    // Exactly 16 bytes are kept whole.
    let name = parse_name("aaaaaaaaaaaaaaé");
    assert_eq!(name, format!("{}é\0", "a".repeat(14)));
}

#[test]
fn suffixed_sizes_from_capture_groups() {
    let groups = |d: &str, m: &str| vec![Some(d.to_string()), Some(m.to_string())];
    assert_eq!(suffixed_size(&groups("4", "k")), Some(4096));
    assert_eq!(suffixed_size(&groups("2", "M")), Some(2 * 1024 * 1024));
    assert_eq!(suffixed_size(&groups("4096", "m")), None);
    assert_eq!(suffixed_size(&groups("1", "g")), None);
    assert_eq!(suffixed_size(&groups("\u{0663}", "k")), None);
    assert_eq!(suffixed_size(&vec![Some("1".to_string()), None]), None);
    assert_eq!(suffixed_size(&vec![]), None);
}
