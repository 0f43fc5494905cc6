use vstd::prelude::*;

use vstd::utf8::*;

use crate::strings::{str_eq, string_from};

verus! {

/// Alignment of the offset of an `app` partition.
pub const APP_PARTITION_ALIGNMENT: u32 = 0x10000;

/// Alignment of the offset of a `data` partition.
pub const DATA_PARTITION_ALIGNMENT: u32 = 0x1000;

/// Supported partition types.
///
/// User-defined partition types are allowed as long as their type ID does not
/// conflict with [`Type::App`] or [`Type::Data`].
#[derive(Debug, Clone, Copy, PartialEq, Eq, Structural)]
pub enum Type {
    App,
    Data,
    Custom(u8),
}

/// The numeric type ID of a partition type.
pub open spec fn type_code(ty: Type) -> u8 {
    match ty {
        Type::App => 0x00,
        Type::Data => 0x01,
        Type::Custom(n) => n,
    }
}

/// The partition type with a numeric type ID.
pub open spec fn type_of_code(n: u8) -> Type {
    if n == 0x00 {
        Type::App
    } else if n == 0x01 {
        Type::Data
    } else {
        Type::Custom(n)
    }
}

/// A `Custom` type never carries the ID of `App` or `Data`.
pub open spec fn type_is_canonical(ty: Type) -> bool {
    match ty {
        Type::Custom(n) => n != 0x00 && n != 0x01,
        _ => true,
    }
}

impl Type {
    /// The partition type with the given numeric type ID.
    pub fn from_u8(n: u8) -> (r: Type)
        ensures
            r == type_of_code(n),
    {
        match n {
            0x00 => Type::App,
            0x01 => Type::Data,
            n => Type::Custom(n),
        }
    }

    /// The numeric type ID of this type.
    pub fn as_u8(&self) -> (r: u8)
        ensures
            r == type_code(*self),
    {
        match self {
            Type::App => 0x00,
            Type::Data => 0x01,
            Type::Custom(n) => *n,
        }
    }
}

/// Sub-types of [`Type::App`] partitions.
#[allow(non_camel_case_types)]
#[derive(Debug, Clone, Copy, PartialEq, Eq, Structural)]
pub enum AppType {
    Factory,
    Ota_0,
    Ota_1,
    Ota_2,
    Ota_3,
    Ota_4,
    Ota_5,
    Ota_6,
    Ota_7,
    Ota_8,
    Ota_9,
    Ota_10,
    Ota_11,
    Ota_12,
    Ota_13,
    Ota_14,
    Ota_15,
    Test,
}

/// Sub-types of [`Type::Data`] partitions.
#[derive(Debug, Clone, Copy, PartialEq, Eq, Structural)]
pub enum DataType {
    Ota,
    Phy,
    Nvs,
    Coredump,
    NvsKeys,
    EfuseEm,
    Undefined,
    Esphttpd,
    Fat,
    Spiffs,
    Littlefs,
}

/// The numeric sub-type ID of an `app` sub-type.
pub open spec fn app_type_code(t: AppType) -> u8 {
    match t {
        AppType::Factory => 0x00,
        AppType::Ota_0 => 0x10,
        AppType::Ota_1 => 0x11,
        AppType::Ota_2 => 0x12,
        AppType::Ota_3 => 0x13,
        AppType::Ota_4 => 0x14,
        AppType::Ota_5 => 0x15,
        AppType::Ota_6 => 0x16,
        AppType::Ota_7 => 0x17,
        AppType::Ota_8 => 0x18,
        AppType::Ota_9 => 0x19,
        AppType::Ota_10 => 0x1a,
        AppType::Ota_11 => 0x1b,
        AppType::Ota_12 => 0x1c,
        AppType::Ota_13 => 0x1d,
        AppType::Ota_14 => 0x1e,
        AppType::Ota_15 => 0x1f,
        AppType::Test => 0x20,
    }
}

/// The `app` sub-type with a numeric sub-type ID, if there is one.
pub open spec fn app_type_of_code(n: u8) -> Option<AppType> {
    if n == 0x00 {
        Some(AppType::Factory)
    } else if n == 0x10 {
        Some(AppType::Ota_0)
    } else if n == 0x11 {
        Some(AppType::Ota_1)
    } else if n == 0x12 {
        Some(AppType::Ota_2)
    } else if n == 0x13 {
        Some(AppType::Ota_3)
    } else if n == 0x14 {
        Some(AppType::Ota_4)
    } else if n == 0x15 {
        Some(AppType::Ota_5)
    } else if n == 0x16 {
        Some(AppType::Ota_6)
    } else if n == 0x17 {
        Some(AppType::Ota_7)
    } else if n == 0x18 {
        Some(AppType::Ota_8)
    } else if n == 0x19 {
        Some(AppType::Ota_9)
    } else if n == 0x1a {
        Some(AppType::Ota_10)
    } else if n == 0x1b {
        Some(AppType::Ota_11)
    } else if n == 0x1c {
        Some(AppType::Ota_12)
    } else if n == 0x1d {
        Some(AppType::Ota_13)
    } else if n == 0x1e {
        Some(AppType::Ota_14)
    } else if n == 0x1f {
        Some(AppType::Ota_15)
    } else if n == 0x20 {
        Some(AppType::Test)
    } else {
        None
    }
}

/// The name of an `app` sub-type in the text format.
pub open spec fn app_type_name(t: AppType) -> Seq<char> {
    match t {
        AppType::Factory => "factory"@,
        AppType::Ota_0 => "ota_0"@,
        AppType::Ota_1 => "ota_1"@,
        AppType::Ota_2 => "ota_2"@,
        AppType::Ota_3 => "ota_3"@,
        AppType::Ota_4 => "ota_4"@,
        AppType::Ota_5 => "ota_5"@,
        AppType::Ota_6 => "ota_6"@,
        AppType::Ota_7 => "ota_7"@,
        AppType::Ota_8 => "ota_8"@,
        AppType::Ota_9 => "ota_9"@,
        AppType::Ota_10 => "ota_10"@,
        AppType::Ota_11 => "ota_11"@,
        AppType::Ota_12 => "ota_12"@,
        AppType::Ota_13 => "ota_13"@,
        AppType::Ota_14 => "ota_14"@,
        AppType::Ota_15 => "ota_15"@,
        AppType::Test => "test"@,
    }
}

/// The `app` sub-type with a name, if there is one.
pub open spec fn app_type_of_name(s: Seq<char>) -> Option<AppType> {
    if s == "factory"@ {
        Some(AppType::Factory)
    } else if s == "ota_0"@ {
        Some(AppType::Ota_0)
    } else if s == "ota_1"@ {
        Some(AppType::Ota_1)
    } else if s == "ota_2"@ {
        Some(AppType::Ota_2)
    } else if s == "ota_3"@ {
        Some(AppType::Ota_3)
    } else if s == "ota_4"@ {
        Some(AppType::Ota_4)
    } else if s == "ota_5"@ {
        Some(AppType::Ota_5)
    } else if s == "ota_6"@ {
        Some(AppType::Ota_6)
    } else if s == "ota_7"@ {
        Some(AppType::Ota_7)
    } else if s == "ota_8"@ {
        Some(AppType::Ota_8)
    } else if s == "ota_9"@ {
        Some(AppType::Ota_9)
    } else if s == "ota_10"@ {
        Some(AppType::Ota_10)
    } else if s == "ota_11"@ {
        Some(AppType::Ota_11)
    } else if s == "ota_12"@ {
        Some(AppType::Ota_12)
    } else if s == "ota_13"@ {
        Some(AppType::Ota_13)
    } else if s == "ota_14"@ {
        Some(AppType::Ota_14)
    } else if s == "ota_15"@ {
        Some(AppType::Ota_15)
    } else if s == "test"@ {
        Some(AppType::Test)
    } else {
        None
    }
}

impl AppType {
    /// The numeric sub-type ID of this sub-type.
    pub fn as_u8(&self) -> (r: u8)
        ensures
            r == app_type_code(*self),
    {
        match self {
            AppType::Factory => 0x00,
            AppType::Ota_0 => 0x10,
            AppType::Ota_1 => 0x11,
            AppType::Ota_2 => 0x12,
            AppType::Ota_3 => 0x13,
            AppType::Ota_4 => 0x14,
            AppType::Ota_5 => 0x15,
            AppType::Ota_6 => 0x16,
            AppType::Ota_7 => 0x17,
            AppType::Ota_8 => 0x18,
            AppType::Ota_9 => 0x19,
            AppType::Ota_10 => 0x1a,
            AppType::Ota_11 => 0x1b,
            AppType::Ota_12 => 0x1c,
            AppType::Ota_13 => 0x1d,
            AppType::Ota_14 => 0x1e,
            AppType::Ota_15 => 0x1f,
            AppType::Test => 0x20,
        }
    }

    /// The sub-type with the given numeric sub-type ID, if there is one.
    pub fn from_u8(n: u8) -> (r: Option<AppType>)
        ensures
            r == app_type_of_code(n),
    {
        match n {
            0x00 => Some(AppType::Factory),
            0x10 => Some(AppType::Ota_0),
            0x11 => Some(AppType::Ota_1),
            0x12 => Some(AppType::Ota_2),
            0x13 => Some(AppType::Ota_3),
            0x14 => Some(AppType::Ota_4),
            0x15 => Some(AppType::Ota_5),
            0x16 => Some(AppType::Ota_6),
            0x17 => Some(AppType::Ota_7),
            0x18 => Some(AppType::Ota_8),
            0x19 => Some(AppType::Ota_9),
            0x1a => Some(AppType::Ota_10),
            0x1b => Some(AppType::Ota_11),
            0x1c => Some(AppType::Ota_12),
            0x1d => Some(AppType::Ota_13),
            0x1e => Some(AppType::Ota_14),
            0x1f => Some(AppType::Ota_15),
            0x20 => Some(AppType::Test),
            _ => None,
        }
    }

    /// The name of this sub-type in the text format.
    pub fn name(&self) -> (r: &'static str)
        ensures
            r@ == app_type_name(*self),
    {
        match self {
            AppType::Factory => "factory",
            AppType::Ota_0 => "ota_0",
            AppType::Ota_1 => "ota_1",
            AppType::Ota_2 => "ota_2",
            AppType::Ota_3 => "ota_3",
            AppType::Ota_4 => "ota_4",
            AppType::Ota_5 => "ota_5",
            AppType::Ota_6 => "ota_6",
            AppType::Ota_7 => "ota_7",
            AppType::Ota_8 => "ota_8",
            AppType::Ota_9 => "ota_9",
            AppType::Ota_10 => "ota_10",
            AppType::Ota_11 => "ota_11",
            AppType::Ota_12 => "ota_12",
            AppType::Ota_13 => "ota_13",
            AppType::Ota_14 => "ota_14",
            AppType::Ota_15 => "ota_15",
            AppType::Test => "test",
        }
    }

    /// The sub-type with the given name, if there is one; the match is
    /// case-sensitive.
    pub fn from_name(s: &str) -> (r: Option<AppType>)
        ensures
            r == app_type_of_name(s@),
    {
        if str_eq(s, "factory") {
            Some(AppType::Factory)
        } else if str_eq(s, "ota_0") {
            Some(AppType::Ota_0)
        } else if str_eq(s, "ota_1") {
            Some(AppType::Ota_1)
        } else if str_eq(s, "ota_2") {
            Some(AppType::Ota_2)
        } else if str_eq(s, "ota_3") {
            Some(AppType::Ota_3)
        } else if str_eq(s, "ota_4") {
            Some(AppType::Ota_4)
        } else if str_eq(s, "ota_5") {
            Some(AppType::Ota_5)
        } else if str_eq(s, "ota_6") {
            Some(AppType::Ota_6)
        } else if str_eq(s, "ota_7") {
            Some(AppType::Ota_7)
        } else if str_eq(s, "ota_8") {
            Some(AppType::Ota_8)
        } else if str_eq(s, "ota_9") {
            Some(AppType::Ota_9)
        } else if str_eq(s, "ota_10") {
            Some(AppType::Ota_10)
        } else if str_eq(s, "ota_11") {
            Some(AppType::Ota_11)
        } else if str_eq(s, "ota_12") {
            Some(AppType::Ota_12)
        } else if str_eq(s, "ota_13") {
            Some(AppType::Ota_13)
        } else if str_eq(s, "ota_14") {
            Some(AppType::Ota_14)
        } else if str_eq(s, "ota_15") {
            Some(AppType::Ota_15)
        } else if str_eq(s, "test") {
            Some(AppType::Test)
        } else {
            None
        }
    }
}

/// The numeric sub-type ID of a `data` sub-type.
pub open spec fn data_type_code(t: DataType) -> u8 {
    match t {
        DataType::Ota => 0x00,
        DataType::Phy => 0x01,
        DataType::Nvs => 0x02,
        DataType::Coredump => 0x03,
        DataType::NvsKeys => 0x04,
        DataType::EfuseEm => 0x05,
        DataType::Undefined => 0x06,
        DataType::Esphttpd => 0x80,
        DataType::Fat => 0x81,
        DataType::Spiffs => 0x82,
        DataType::Littlefs => 0x83,
    }
}

/// The `data` sub-type with a numeric sub-type ID, if there is one.
pub open spec fn data_type_of_code(n: u8) -> Option<DataType> {
    if n == 0x00 {
        Some(DataType::Ota)
    } else if n == 0x01 {
        Some(DataType::Phy)
    } else if n == 0x02 {
        Some(DataType::Nvs)
    } else if n == 0x03 {
        Some(DataType::Coredump)
    } else if n == 0x04 {
        Some(DataType::NvsKeys)
    } else if n == 0x05 {
        Some(DataType::EfuseEm)
    } else if n == 0x06 {
        Some(DataType::Undefined)
    } else if n == 0x80 {
        Some(DataType::Esphttpd)
    } else if n == 0x81 {
        Some(DataType::Fat)
    } else if n == 0x82 {
        Some(DataType::Spiffs)
    } else if n == 0x83 {
        Some(DataType::Littlefs)
    } else {
        None
    }
}

/// The name of a `data` sub-type in the text format.
pub open spec fn data_type_name(t: DataType) -> Seq<char> {
    match t {
        DataType::Ota => "ota"@,
        DataType::Phy => "phy"@,
        DataType::Nvs => "nvs"@,
        DataType::Coredump => "coredump"@,
        DataType::NvsKeys => "nvs_keys"@,
        DataType::EfuseEm => "efuse"@,
        DataType::Undefined => "undefined"@,
        DataType::Esphttpd => "esphttpd"@,
        DataType::Fat => "fat"@,
        DataType::Spiffs => "spiffs"@,
        DataType::Littlefs => "littlefs"@,
    }
}

/// The `data` sub-type with a name, if there is one.
pub open spec fn data_type_of_name(s: Seq<char>) -> Option<DataType> {
    if s == "ota"@ {
        Some(DataType::Ota)
    } else if s == "phy"@ {
        Some(DataType::Phy)
    } else if s == "nvs"@ {
        Some(DataType::Nvs)
    } else if s == "coredump"@ {
        Some(DataType::Coredump)
    } else if s == "nvs_keys"@ {
        Some(DataType::NvsKeys)
    } else if s == "efuse"@ {
        Some(DataType::EfuseEm)
    } else if s == "undefined"@ {
        Some(DataType::Undefined)
    } else if s == "esphttpd"@ {
        Some(DataType::Esphttpd)
    } else if s == "fat"@ {
        Some(DataType::Fat)
    } else if s == "spiffs"@ {
        Some(DataType::Spiffs)
    } else if s == "littlefs"@ {
        Some(DataType::Littlefs)
    } else {
        None
    }
}

impl DataType {
    /// The numeric sub-type ID of this sub-type.
    pub fn as_u8(&self) -> (r: u8)
        ensures
            r == data_type_code(*self),
    {
        match self {
            DataType::Ota => 0x00,
            DataType::Phy => 0x01,
            DataType::Nvs => 0x02,
            DataType::Coredump => 0x03,
            DataType::NvsKeys => 0x04,
            DataType::EfuseEm => 0x05,
            DataType::Undefined => 0x06,
            DataType::Esphttpd => 0x80,
            DataType::Fat => 0x81,
            DataType::Spiffs => 0x82,
            DataType::Littlefs => 0x83,
        }
    }

    /// The sub-type with the given numeric sub-type ID, if there is one.
    pub fn from_u8(n: u8) -> (r: Option<DataType>)
        ensures
            r == data_type_of_code(n),
    {
        match n {
            0x00 => Some(DataType::Ota),
            0x01 => Some(DataType::Phy),
            0x02 => Some(DataType::Nvs),
            0x03 => Some(DataType::Coredump),
            0x04 => Some(DataType::NvsKeys),
            0x05 => Some(DataType::EfuseEm),
            0x06 => Some(DataType::Undefined),
            0x80 => Some(DataType::Esphttpd),
            0x81 => Some(DataType::Fat),
            0x82 => Some(DataType::Spiffs),
            0x83 => Some(DataType::Littlefs),
            _ => None,
        }
    }

    /// The name of this sub-type in the text format.
    pub fn name(&self) -> (r: &'static str)
        ensures
            r@ == data_type_name(*self),
    {
        match self {
            DataType::Ota => "ota",
            DataType::Phy => "phy",
            DataType::Nvs => "nvs",
            DataType::Coredump => "coredump",
            DataType::NvsKeys => "nvs_keys",
            DataType::EfuseEm => "efuse",
            DataType::Undefined => "undefined",
            DataType::Esphttpd => "esphttpd",
            DataType::Fat => "fat",
            DataType::Spiffs => "spiffs",
            DataType::Littlefs => "littlefs",
        }
    }

    /// The sub-type with the given name, if there is one; the match is
    /// case-sensitive.
    pub fn from_name(s: &str) -> (r: Option<DataType>)
        ensures
            r == data_type_of_name(s@),
    {
        if str_eq(s, "ota") {
            Some(DataType::Ota)
        } else if str_eq(s, "phy") {
            Some(DataType::Phy)
        } else if str_eq(s, "nvs") {
            Some(DataType::Nvs)
        } else if str_eq(s, "coredump") {
            Some(DataType::Coredump)
        } else if str_eq(s, "nvs_keys") {
            Some(DataType::NvsKeys)
        } else if str_eq(s, "efuse") {
            Some(DataType::EfuseEm)
        } else if str_eq(s, "undefined") {
            Some(DataType::Undefined)
        } else if str_eq(s, "esphttpd") {
            Some(DataType::Esphttpd)
        } else if str_eq(s, "fat") {
            Some(DataType::Fat)
        } else if str_eq(s, "spiffs") {
            Some(DataType::Spiffs)
        } else if str_eq(s, "littlefs") {
            Some(DataType::Littlefs)
        } else {
            None
        }
    }
}

/// Partition sub-types.
///
/// A [`SubType::Custom`] sub-type is meant to be paired with a
/// [`Type::Custom`] partition type.
#[derive(Debug, Clone, Copy, PartialEq, Eq, Structural)]
pub enum SubType {
    App(AppType),
    Data(DataType),
    Custom(u8),
}

/// The numeric sub-type ID of a sub-type.
pub open spec fn subtype_code(st: SubType) -> u8 {
    match st {
        SubType::App(a) => app_type_code(a),
        SubType::Data(d) => data_type_code(d),
        SubType::Custom(n) => n,
    }
}

/// The sub-type is of the kind that the partition type calls for.
pub open spec fn subtype_matches_type(ty: Type, st: SubType) -> bool {
    match ty {
        Type::App => st is App,
        Type::Data => st is Data,
        Type::Custom(_) => st is Custom,
    }
}

/// The sub-type that a record with type `ty` and numeric sub-type ID `n`
/// stands for, if the ID is defined for that type.
pub open spec fn subtype_of_code(ty: Type, n: u8) -> Option<SubType> {
    match ty {
        Type::App => match app_type_of_code(n) {
            Some(a) => Some(SubType::App(a)),
            None => None,
        },
        Type::Data => match data_type_of_code(n) {
            Some(d) => Some(SubType::Data(d)),
            None => None,
        },
        Type::Custom(_) => Some(SubType::Custom(n)),
    }
}

impl SubType {
    /// The numeric sub-type ID of this sub-type.
    pub fn as_u8(&self) -> (r: u8)
        ensures
            r == subtype_code(*self),
    {
        match self {
            SubType::App(a) => a.as_u8(),
            SubType::Data(d) => d.as_u8(),
            SubType::Custom(n) => *n,
        }
    }

    /// The `app` sub-type with the given numeric ID.
    pub fn app(value: u8) -> (r: SubType)
        requires
            app_type_of_code(value) is Some,
        ensures
            r == SubType::App(app_type_of_code(value)->Some_0),
    {
        match AppType::from_u8(value) {
            Some(a) => SubType::App(a),
            None => SubType::Custom(value),
        }
    }

    /// The `data` sub-type with the given numeric ID.
    pub fn data(value: u8) -> (r: SubType)
        requires
            data_type_of_code(value) is Some,
        ensures
            r == SubType::Data(data_type_of_code(value)->Some_0),
    {
        match DataType::from_u8(value) {
            Some(d) => SubType::Data(d),
            None => SubType::Custom(value),
        }
    }

    /// The sub-type that a record with type `ty` and numeric sub-type ID `n`
    /// stands for; `None` where `n` names no sub-type of `ty`.
    pub fn from_code(ty: Type, n: u8) -> (r: Option<SubType>)
        ensures
            r == subtype_of_code(ty, n),
    {
        match ty {
            Type::App => match AppType::from_u8(n) {
                Some(a) => Some(SubType::App(a)),
                None => None,
            },
            Type::Data => match DataType::from_u8(n) {
                Some(d) => Some(SubType::Data(d)),
                None => None,
            },
            Type::Custom(_) => Some(SubType::Custom(n)),
        }
    }
}

/// The hint that lists the sub-types a partition type allows.
pub open spec fn subtype_hint_of(ty: Type) -> Seq<char> {
    match ty {
        Type::App => "'factory', 'ota_0' through 'ota_15', or 'test'"@,
        Type::Data => "'ota', 'phy', 'nvs', 'coredump', 'nvs_keys', 'efuse', 'undefined', 'esphttpd', 'fat', 'spiffs', and 'littlefs'"@,
        Type::Custom(_) => "0x02 through 0xFE"@,
    }
}

impl Type {
    /// A sentence listing the sub-types that this type allows, for error
    /// messages.
    pub fn subtype_hint(&self) -> (r: String)
        ensures
            r@ == subtype_hint_of(*self),
    {
        match self {
            Type::App => "'factory', 'ota_0' through 'ota_15', or 'test'".to_owned(),
            Type::Data => "'ota', 'phy', 'nvs', 'coredump', 'nvs_keys', 'efuse', 'undefined', 'esphttpd', 'fat', 'spiffs', and 'littlefs'".to_owned(),
            Type::Custom(_) => "0x02 through 0xFE".to_owned(),
        }
    }
}

impl From<u8> for Type {
    fn from(ty: u8) -> Type {
        Type::from_u8(ty)
    }
}

impl vstd::std_specs::convert::FromSpecImpl<u8> for Type {
    open spec fn obeys_from_spec() -> bool {
        true
    }

    open spec fn from_spec(v: u8) -> Type {
        type_of_code(v)
    }
}

impl From<Type> for u8 {
    fn from(ty: Type) -> u8 {
        ty.as_u8()
    }
}

impl vstd::std_specs::convert::FromSpecImpl<Type> for u8 {
    open spec fn obeys_from_spec() -> bool {
        true
    }

    open spec fn from_spec(v: Type) -> u8 {
        type_code(v)
    }
}

impl From<AppType> for SubType {
    fn from(ty: AppType) -> SubType {
        SubType::App(ty)
    }
}

impl vstd::std_specs::convert::FromSpecImpl<AppType> for SubType {
    open spec fn obeys_from_spec() -> bool {
        true
    }

    open spec fn from_spec(v: AppType) -> SubType {
        SubType::App(v)
    }
}

impl From<DataType> for SubType {
    fn from(ty: DataType) -> SubType {
        SubType::Data(ty)
    }
}

impl vstd::std_specs::convert::FromSpecImpl<DataType> for SubType {
    open spec fn obeys_from_spec() -> bool {
        true
    }

    open spec fn from_spec(v: DataType) -> SubType {
        SubType::Data(v)
    }
}

impl From<u8> for SubType {
    fn from(ty: u8) -> SubType {
        SubType::Custom(ty)
    }
}

impl vstd::std_specs::convert::FromSpecImpl<u8> for SubType {
    open spec fn obeys_from_spec() -> bool {
        true
    }

    open spec fn from_spec(v: u8) -> SubType {
        SubType::Custom(v)
    }
}

impl From<SubType> for u8 {
    fn from(st: SubType) -> u8 {
        st.as_u8()
    }
}

impl vstd::std_specs::convert::FromSpecImpl<SubType> for u8 {
    open spec fn obeys_from_spec() -> bool {
        true
    }

    open spec fn from_spec(v: SubType) -> u8 {
        subtype_code(v)
    }
}

/// Bit of [`Flags`] marking an encrypted partition.
pub const FLAG_ENCRYPTED: u32 = 0b01;

/// Bit of [`Flags`] marking a read-only partition.
pub const FLAG_READONLY: u32 = 0b10;

/// Partition flags: a set of the bits `FLAG_ENCRYPTED` and `FLAG_READONLY`.
#[derive(Debug, Clone, Copy, PartialEq, Eq, Structural)]
pub struct Flags {
    pub(crate) bits: u32,
}

impl Flags {
    /// The bits of the set.
    pub open(crate) spec fn spec_bits(self) -> u32 {
        self.bits
    }

    /// No bit outside the two defined ones is set.
    pub open(crate) spec fn wf(self) -> bool {
        self.bits <= 3
    }

    /// The encrypted bit is set.
    pub open(crate) spec fn spec_encrypted(self) -> bool {
        self.bits % 2 == 1
    }

    /// The read-only bit is set.
    pub open(crate) spec fn spec_readonly(self) -> bool {
        (self.bits / 2) % 2 == 1
    }

    /// The set with the two given bits.
    pub open(crate) spec fn of(encrypted: bool, readonly: bool) -> Flags {
        Flags { bits: ((if encrypted { 1int } else { 0int }) + (if readonly { 2int } else { 0int })) as u32 }
    }

    /// The empty set.
    pub fn empty() -> (r: Flags)
        ensures
            r == Flags::of(false, false),
    {
        Flags { bits: 0 }
    }

    /// The set holding the encrypted bit alone.
    pub fn encrypted() -> (r: Flags)
        ensures
            r == Flags::of(true, false),
    {
        Flags { bits: FLAG_ENCRYPTED }
    }

    /// The set holding the read-only bit alone.
    pub fn readonly() -> (r: Flags)
        ensures
            r == Flags::of(false, true),
    {
        Flags { bits: FLAG_READONLY }
    }

    /// The set holding both bits.
    pub fn all() -> (r: Flags)
        ensures
            r == Flags::of(true, true),
    {
        Flags { bits: FLAG_ENCRYPTED + FLAG_READONLY }
    }

    /// The set of the defined bits among `bits`; the others are dropped.
    pub fn from_bits_truncate(bits: u32) -> (r: Flags)
        ensures
            r == Flags::of(bits % 2 == 1, (bits / 2) % 2 == 1),
    {
        Flags::new(bits % 2 == 1, (bits / 2) % 2 == 1)
    }

    /// The set with the two given bits.
    pub fn new(encrypted: bool, readonly: bool) -> (r: Flags)
        ensures
            r == Flags::of(encrypted, readonly),
    {
        let e: u32 = if encrypted { FLAG_ENCRYPTED } else { 0 };
        let ro: u32 = if readonly { FLAG_READONLY } else { 0 };
        Flags { bits: e + ro }
    }

    /// The bits of the set.
    pub fn bits(&self) -> (r: u32)
        ensures
            r == self.spec_bits(),
    {
        self.bits
    }

    /// Whether the encrypted bit is set.
    pub fn is_encrypted(&self) -> (r: bool)
        ensures
            r == self.spec_encrypted(),
    {
        self.bits % 2 == 1
    }

    /// Whether the read-only bit is set.
    pub fn is_readonly(&self) -> (r: bool)
        ensures
            r == self.spec_readonly(),
    {
        (self.bits / 2) % 2 == 1
    }

    /// Whether no bit is set.
    pub fn is_empty(&self) -> (r: bool)
        ensures
            r == (self.spec_bits() == 0),
    {
        self.bits == 0
    }

    /// Whether every bit of `other` is set in `self`.
    pub fn contains(&self, other: Flags) -> (r: bool)
        requires
            self.wf(),
            other.wf(),
        ensures
            r == ((other.spec_encrypted() ==> self.spec_encrypted()) && (other.spec_readonly()
                ==> self.spec_readonly())),
    {
        (!other.is_encrypted() || self.is_encrypted()) && (!other.is_readonly()
            || self.is_readonly())
    }

    /// The set of the bits that are set in `self` or in `other`.
    pub fn union(&self, other: Flags) -> (r: Flags)
        ensures
            r == Flags::of(
                self.spec_encrypted() || other.spec_encrypted(),
                self.spec_readonly() || other.spec_readonly(),
            ),
    {
        Flags::new(
            self.is_encrypted() || other.is_encrypted(),
            self.is_readonly() || other.is_readonly(),
        )
    }

    /// Sets the bits of `other` in `self`.
    pub fn insert(&mut self, other: Flags)
        ensures
            *final(self) == Flags::of(
                old(self).spec_encrypted() || other.spec_encrypted(),
                old(self).spec_readonly() || other.spec_readonly(),
            ),
    {
        *self = self.union(other);
    }
}

/// Most bytes of a name that a record holds.
pub const MAX_NAME_LEN: usize = 16;

/// What a [`Partition`] holds, as mathematical values.
pub ghost struct PartitionView {
    pub name: Seq<char>,
    pub ty: Type,
    pub subtype: SubType,
    pub offset: u32,
    pub size: u32,
    pub flags: Flags,
}

/// A single partition: one row of a partition table.
#[derive(Debug, Clone)]
pub struct Partition {
    pub(crate) name: String,
    pub(crate) ty: Type,
    pub(crate) subtype: SubType,
    pub(crate) offset: u32,
    pub(crate) size: u32,
    pub(crate) flags: Flags,
}

impl View for Partition {
    type V = PartitionView;

    open(crate) spec fn view(&self) -> PartitionView {
        PartitionView {
            name: self.name@,
            ty: self.ty,
            subtype: self.subtype,
            offset: self.offset,
            size: self.size,
            flags: self.flags,
        }
    }
}

/// The half-open byte ranges of two partitions intersect.
pub open spec fn overlaps(a: PartitionView, b: PartitionView) -> bool {
    let lo = if a.offset >= b.offset { a.offset as int } else { b.offset as int };
    let hi = if a.offset + a.size <= b.offset + b.size {
        a.offset + a.size
    } else {
        b.offset + b.size
    };
    lo < hi
}

/// A partition that a record can hold and give back unchanged: its type and
/// sub-type agree, its name fits a record and has no NUL at either end, and
/// its flags hold the defined bits only.
pub open spec fn partition_wf(p: PartitionView) -> bool {
    &&& type_is_canonical(p.ty)
    &&& subtype_matches_type(p.ty, p.subtype)
    &&& encode_utf8(p.name).len() <= MAX_NAME_LEN
    &&& p.name.len() > 0 ==> p.name[0] != '\0' && p.name.last() != '\0'
    &&& p.flags.wf()
}

impl Partition {
    /// Constructs a partition.
    pub fn new(
        name: &str,
        ty: Type,
        subtype: SubType,
        offset: u32,
        size: u32,
        flags: Flags,
    ) -> (r: Partition)
        ensures
            r@ == (PartitionView { name: name@, ty, subtype, offset, size, flags }),
    {
        Partition { name: string_from(name), ty, subtype, offset, size, flags }
    }

    /// The partition's name.
    pub fn name(&self) -> (r: String)
        ensures
            r@ == self@.name,
    {
        self.name.clone()
    }

    /// The partition's [`Type`].
    pub fn ty(&self) -> (r: Type)
        ensures
            r == self@.ty,
    {
        self.ty
    }

    /// The partition's [`SubType`].
    pub fn subtype(&self) -> (r: SubType)
        ensures
            r == self@.subtype,
    {
        self.subtype
    }

    /// The partition's offset.
    pub fn offset(&self) -> (r: u32)
        ensures
            r == self@.offset,
    {
        self.offset
    }

    /// The partition's size.
    pub fn size(&self) -> (r: u32)
        ensures
            r == self@.size,
    {
        self.size
    }

    /// The partition's [`Flags`].
    pub fn flags(&self) -> (r: Flags)
        ensures
            r == self@.flags,
    {
        self.flags
    }

    /// Whether the partition's encrypted flag is set.
    pub fn encrypted(&self) -> (r: bool)
        ensures
            r == self@.flags.spec_encrypted(),
    {
        self.flags.is_encrypted()
    }

    /// Whether this partition's byte range intersects that of `other`.
    pub fn overlaps(&self, other: &Partition) -> (r: bool)
        ensures
            r == overlaps(self@, other@),
    {
        let lo: u64 = if self.offset >= other.offset { self.offset as u64 } else { other.offset as u64 };
        let a_end: u64 = self.offset as u64 + self.size as u64;
        let b_end: u64 = other.offset as u64 + other.size as u64;
        let hi: u64 = if a_end <= b_end { a_end } else { b_end };
        lo < hi
    }

    /// Whether two partitions hold the same values.
    pub fn same_as(&self, other: &Partition) -> (r: bool)
        ensures
            r == (self@ == other@),
    {
        self.name == other.name && self.ty == other.ty && self.subtype == other.subtype
            && self.offset == other.offset && self.size == other.size && self.flags
            == other.flags
    }
}

impl PartialEq for Partition {
    fn eq(&self, other: &Partition) -> (r: bool) {
        self.same_as(other)
    }
}

impl vstd::std_specs::cmp::PartialEqSpecImpl for Partition {
    open spec fn obeys_eq_spec() -> bool {
        true
    }

    open spec fn eq_spec(&self, other: &Partition) -> bool {
        self@ == other@
    }
}

impl Eq for Partition {

}

} // verus!
