use esp_idf_part::{AppType, Error, Flags, Partition, PartitionTable, SubType, Type};

const SINGLE_FACTORY_NO_OTA: &str = "\
# ESP-IDF Partition Table
# Name,   Type, SubType, Offset,  Size, Flags
nvs,      data, nvs,     0x9000,  0x6000,
phy_init, data, phy,     0xf000,  0x1000,
factory,  app,  factory, 0x10000, 1M,
";

const FACTORY_APP_TWO_OTA: &str = "\
# ESP-IDF Partition Table
# Name,   Type, SubType, Offset,   Size, Flags
nvs,      data, nvs,     0x9000,   0x4000,
otadata,  data, ota,     0xd000,   0x2000,
phy_init, data, phy,     0xf000,   0x1000,
factory,  app,  factory, 0x10000,  1M,
ota_0,    app,  ota_0,   0x110000, 1M,
ota_1,    app,  ota_1,   0x210000, 1M,
";

const UNIT_TEST_APP: &str = "\
# Special partition table for unit test app
# Name,   Type, SubType, Offset,   Size, Flags
nvs,      data, nvs,     0x9000,  0x4000
otadata,  data, ota,     0xd000,  0x2000
phy_init, data, phy,     0xf000,  0x1000
factory,  0,    0,       0x10000, 0x260000
flash_test, data, fat,    ,        528K
nvs_key,  data, nvs_keys, ,       0x1000, encrypted
";

const UNIT_TEST_APP_2M: &str = "\
# Name,   Type, SubType, Offset,   Size, Flags
nvs,      data, nvs,     0x9000,  0x4000
otadata,  data, ota,     0xd000,  0x2000
phy_init, data, phy,     0xf000,  0x1000
factory,  0,    0,       0x10000, 0x150000
flash_test, data, fat,    ,        128K
";

const UNIT_TEST_TWO_OTA: &str = "\
# Name,   Type, SubType, Offset,   Size, Flags
nvs,      data, nvs,     ,        0x4000
otadata,  data, ota,     ,        0x2000
phy_init, data, phy,     ,        0x1000
factory,  0,    0,       ,        0xB0000
ota_0,    0,    ota_0,   ,        0xB0000
ota_1,    0,    ota_1,   ,        0xB0000
test,     0,    test,    ,        0xB0000
";

const UNIT_TEST_TWO_OTA_2M: &str = "\
# Name,   Type, SubType, Offset,   Size, Flags
nvs,      data, nvs,     ,        0x4000
otadata,  data, ota,     ,        0x2000
phy_init, data, phy,     ,        0x1000
factory,  0,    0,       ,        0x70000
ota_0,    0,    ota_0,   ,        0x70000
ota_1,    0,    ota_1,   ,        0x70000
";

const CIRCUITPYTHON_16MB: &str = "\
# ESP-IDF Partition Table
# Name,   Type, SubType, Offset,  Size, Flags
# bootloader.bin,,          0x1000, 32K
# partition table,,         0x8000, 4K
nvs,      data, nvs,      0x9000,  20K,
otadata,  data, ota,      0xe000,  8K,
ota_0,    app,  ota_0,   0x10000,  2048K,
ota_1,    app,  ota_1,  0x210000,  2048K,
uf2,      app,  factory,0x410000,  256K,
user_fs,  data, fat,    0x450000,  11968K,
";

const CIRCUITPYTHON_4MB_NO_UF2: &str = "\
# Name,   Type, SubType, Offset,  Size, Flags
nvs,      data, nvs,      0x9000,  20K,
otadata,  data, ota,      0xe000,  8K,
ota_0,    app,  ota_0,   0x10000,  1408K,
ota_1,    app,  ota_1,  0x170000,  1408K,
user_fs,  data, fat,    0x2d0000,  1216K,
";

const LARGE_DATA_PARTITION: &str = "\
# Name,   Type, SubType, Offset,  Size, Flags
nvs,      data, nvs,     0x9000,  0x6000,
phy_init, data, phy,     0xf000,  0x1000,
factory,  app,  factory, 0x10000, 2M,
storage,  data, spiffs,  ,        29M,
";

const ERR_NO_APP_PARTITION: &str = "\
nvs,      data, nvs,     0x9000,  0x6000,
phy_init, data, phy,     0xf000,  0x1000,
";

const ERR_MULTIPLE_FACTORY: &str = "\
nvs,      data, nvs,     0x9000,  0x6000,
factory,  app,  factory, 0x10000, 1M,
factory2, app,  factory, 0x110000, 1M,
";

const ERR_FACTORY_TOO_LARGE: &str = "\
nvs,      data, nvs,     0x9000,  0x6000,
factory,  app,  factory, 0x10000, 17M,
";

const ERR_MULTIPLE_OTADATA: &str = "\
nvs,      data, nvs,     0x9000,  0x4000,
otadata,  data, ota,     0xd000,  0x2000,
otadata2, data, ota,     0xf000,  0x2000,
factory,  app,  factory, 0x10000, 1M,
";

const ERR_OTADATA_INVALID_SIZE: &str = "\
nvs,      data, nvs,     0x9000,  0x4000,
otadata,  data, ota,     0xd000,  0x1000,
factory,  app,  factory, 0x10000, 1M,
";

const ERR_UNALIGNED_APP_PARTITION: &str = "\
nvs,      data, nvs,     0x9000,  0x6000,
factory,  app,  factory, 0x11000, 1M,
";

const ERR_CONFLICTING_NAMES: &str = "\
nvs,      data, nvs,     0x9000,   0x6000,
factory,  app,  factory, 0x10000,  1M,
ota_0,    app,  ota_0,   0x110000, 1M,
ota_0,    app,  ota_1,   0x210000, 1M,
";

fn table(text: &str) -> PartitionTable {
    PartitionTable::try_from(text.as_bytes().to_vec()).unwrap()
}

#[test]
fn test_parse_bin() {
    let bin = table(SINGLE_FACTORY_NO_OTA).to_bin().unwrap();
    let table = PartitionTable::try_from(bin).unwrap();
    let partitions = table.partitions();

    assert_eq!(partitions.len(), 3);
    assert_eq!(partitions[0].name(), "nvs");
    assert_eq!(partitions[1].name(), "phy_init");
    assert_eq!(partitions[2].name(), "factory");

    let bin = table_two_ota_bin();
    let table = PartitionTable::try_from(bin).unwrap();
    let partitions = table.partitions();

    assert_eq!(partitions.len(), 6);
    assert_eq!(partitions[3].name(), "factory");
    assert_eq!(partitions[3].ty(), Type::App);
    assert_eq!(partitions[3].subtype(), SubType::App(AppType::Factory));
    assert_eq!(partitions[3].offset(), 0x10000);
    assert_eq!(partitions[3].size(), 0x100000);
    assert_eq!(partitions[3].encrypted(), false);
}

fn table_two_ota_bin() -> Vec<u8> {
    table(FACTORY_APP_TWO_OTA).to_bin().unwrap()
}

#[test]
fn test_parse_csv() {
    let table = PartitionTable::try_from(SINGLE_FACTORY_NO_OTA.as_bytes().to_vec()).unwrap();
    let partitions = table.partitions();

    assert_eq!(partitions.len(), 3);
    assert_eq!(partitions[0].name(), "nvs");
    assert_eq!(partitions[1].name(), "phy_init");
    assert_eq!(partitions[2].name(), "factory");

    let table = PartitionTable::try_from(FACTORY_APP_TWO_OTA.as_bytes().to_vec()).unwrap();
    let partitions = table.partitions();

    assert_eq!(partitions.len(), 6);
    assert_eq!(partitions[3].name(), "factory");
    assert_eq!(partitions[3].ty(), Type::App);
    assert_eq!(partitions[3].subtype(), SubType::App(AppType::Factory));
    assert_eq!(partitions[3].offset(), 0x10000);
    assert_eq!(partitions[3].size(), 0x100000);
    assert_eq!(partitions[3].encrypted(), false);
}

#[test]
fn test_conversion_between_types() {
    let table_a = table(SINGLE_FACTORY_NO_OTA);
    let bin = table_a.to_bin().unwrap();
    let table_b = PartitionTable::try_from(bin).unwrap();

    assert_eq!(table_a, table_b);

    let table_a = PartitionTable::try_from(table_two_ota_bin()).unwrap();
    let csv = table_a.to_csv().unwrap();
    let table_b = PartitionTable::try_from(csv.into_bytes()).unwrap();

    assert_eq!(table_a, table_b);
}

#[test]
fn test_esp_idf_unit_test_partition_tables() {
    let files = vec![UNIT_TEST_APP_2M, UNIT_TEST_APP, UNIT_TEST_TWO_OTA_2M, UNIT_TEST_TWO_OTA];

    for file in files {
        let table = PartitionTable::try_from(file.as_bytes().to_vec());
        assert!(table.is_ok());

        let table = table.unwrap();
        let factory = table.find("factory");
        assert!(factory.is_some());
        let factory = factory.unwrap();
        assert_eq!(factory.ty(), Type::App);
        assert_eq!(factory.subtype(), SubType::App(AppType::Factory));
    }
}

#[test]
fn test_circuitpython_partition_tables() {
    let files = vec![CIRCUITPYTHON_16MB, CIRCUITPYTHON_4MB_NO_UF2];

    for file in files {
        let table = PartitionTable::try_from(file.as_bytes().to_vec());
        assert!(table.is_ok());
    }
}

#[test]
fn test_large_data_partition() {
    let table = table(LARGE_DATA_PARTITION);
    let partitions = table.partitions();

    assert_eq!(partitions.len(), 4);
    assert_eq!(partitions[0].name(), "nvs");
    assert_eq!(partitions[1].name(), "phy_init");
    assert_eq!(partitions[2].name(), "factory");
    assert_eq!(partitions[3].name(), "storage");
    assert_eq!(partitions[3].size(), 29 * 1024 * 1024);
}

#[test]
fn test_error_when_no_app_partition() -> Result<(), String> {
    match PartitionTable::try_from_str(ERR_NO_APP_PARTITION) {
        Err(Error::NoAppPartition) => Ok(()),
        result => Err(format!("expected `Err(Error::NoAppPartition)`, found `{result:?}`")),
    }
}

#[test]
fn test_error_when_multiple_factory_partitions() -> Result<(), String> {
    match PartitionTable::try_from_str(ERR_MULTIPLE_FACTORY) {
        Err(Error::MultipleFactoryPartitions) => Ok(()),
        result => Err(format!(
            "expected `Err(Error::MultipleFactoryPartitions)`, found `{result:?}`"
        )),
    }
}

#[test]
fn test_error_factory_partition_too_large() -> Result<(), String> {
    match PartitionTable::try_from_str(ERR_FACTORY_TOO_LARGE) {
        Err(Error::PartitionTooLarge(name)) if name == "factory" => Ok(()),
        result => Err(format!(
            "expected `Err(PartitionTooLarge(\"factory\"))`, found `{result:?}`"
        )),
    }
}

#[test]
fn test_error_when_multiple_otadata_partitions() -> Result<(), String> {
    match PartitionTable::try_from_str(ERR_MULTIPLE_OTADATA) {
        Err(Error::MultipleOtadataPartitions) => Ok(()),
        result => Err(format!(
            "expected `Err(Error::MultipleOtadataPartitions)`, found `{result:?}`"
        )),
    }
}

#[test]
fn test_error_when_otadata_size_invalid() -> Result<(), String> {
    match PartitionTable::try_from_str(ERR_OTADATA_INVALID_SIZE) {
        Err(Error::InvalidOtadataPartitionSize) => Ok(()),
        result => Err(format!(
            "expected `Err(Error::InvalidOtadataPartitionSize)`, found `{result:?}`"
        )),
    }
}

#[test]
fn test_error_when_unaligned_app_partition() -> Result<(), String> {
    match PartitionTable::try_from_str(ERR_UNALIGNED_APP_PARTITION) {
        Err(Error::UnalignedPartition) => Ok(()),
        result => Err(format!("expected `Err(Error::UnalignedPartition)`, found `{result:?}`")),
    }
}

#[test]
fn test_error_when_duplicate_partition_names() -> Result<(), String> {
    match PartitionTable::try_from_str(ERR_CONFLICTING_NAMES) {
        Err(Error::DuplicatePartitions(name)) if &name == "ota_0" => Ok(()),
        result => Err(format!(
            "expected `Err(Error::DuplicatePartitions(\"ota_0\"))`, found `{result:?}`"
        )),
    }
}

#[test]
fn test_error_when_partitions_overlapping() -> Result<(), String> {
    match PartitionTable::try_from_str(ERR_UNALIGNED_APP_PARTITION) {
        Err(Error::UnalignedPartition) => Ok(()),
        result => Err(format!("expected `Err(Error::UnalignedPartition)`, found `{result:?}`")),
    }
}

#[test]
fn test_empty_offsets_are_correctly_calculated() {
    let table = table(UNIT_TEST_TWO_OTA);

    let partitions = table.partitions();
    let first = &partitions[0];

    let mut offset = 0x9000;

    assert_eq!(first.name(), "nvs");
    assert_eq!(first.offset(), offset);
    offset += first.size();

    for i in 1..partitions.len() {
        let next = &partitions[i];
        assert_eq!(next.offset(), offset);
        offset += next.size();
    }
}

#[test]
fn test_maximum_partition_size_is_enforced() -> Result<(), String> {
    let table = PartitionTable::new(vec![Partition::new(
        "factory",
        Type::App,
        SubType::App(AppType::Factory),
        0,
        32 * 1024 * 1024, // 32MB, too big!
        Flags::empty(),
    )]);

    match table.validate() {
        Err(Error::PartitionTooLarge(name)) if &name == "factory" => Ok(()),
        result => Err(format!(
            "expected `Err(Error::PartitionTooLarge(\"factory\"))`, found `{result:?}`"
        )),
    }
}
