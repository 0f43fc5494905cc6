use vstd::prelude::*;
use vstd::utf8::*;

use crate::error::{Error, ErrorView};
use crate::partition::{
    app_type_name, app_type_of_code, app_type_of_name, data_type_name, data_type_of_code,
    data_type_of_name, subtype_code, AppType, DataType, Flags, Partition, PartitionView, SubType,
    Type, MAX_NAME_LEN,
};
use crate::strings::{
    chars_of, lemma_encode_utf8_concat, nuls, push_char, str_eq, string_of_chars, trim_nul,
    trim_nul_string,
};

verus! {

broadcast use vstd::string::group_string_axioms;

// ---------------------------------------------------------------------------
// Calls into the integer parser, the regex engine and the csv reader/writer.

/// What `parse_int::parse::<u8>` makes of a string, `None` for an error.
pub uninterp spec fn parse_int_u8_of(s: Seq<char>) -> Option<u8>;

/// What `parse_int::parse::<u32>` makes of a string, `None` for an error.
pub uninterp spec fn parse_int_u32_of(s: Seq<char>) -> Option<u32>;

/// The capture groups (after the whole match) of the first match of a regex
/// pattern in a string; `None` where the pattern is invalid or does not match.
pub uninterp spec fn regex_captures_of(pattern: Seq<char>, s: Seq<char>) -> Option<
    Seq<Option<Seq<char>>>,
>;

/// The records, each a sequence of fields, that the csv reader finds in a text
/// with comment lines starting with `comment`, rows of any length, no header
/// row and fields trimmed of surrounding whitespace.
pub uninterp spec fn csv_records_of(comment: u8, text: Seq<char>) -> Seq<Seq<Seq<char>>>;

/// The line that the csv writer makes of one record.
pub uninterp spec fn csv_line_of(fields: Seq<Seq<char>>) -> Seq<char>;

/// The value of a hexadecimal digit, upper or lower case.
pub open spec fn hex_digit_value(c: char) -> Option<nat> {
    if '0' <= c && c <= '9' {
        Some((c as u32 - '0' as u32) as nat)
    } else if 'a' <= c && c <= 'f' {
        Some((c as u32 - 'a' as u32 + 10) as nat)
    } else if 'A' <= c && c <= 'F' {
        Some((c as u32 - 'A' as u32 + 10) as nat)
    } else {
        None
    }
}

/// Every character of `d` is a hexadecimal digit.
pub open spec fn all_hex_digits(d: Seq<char>) -> bool {
    forall|k: int| 0 <= k < d.len() ==> (#[trigger] hex_digit_value(d[k])) is Some
}

/// The value of a sequence of hexadecimal digits.
pub open spec fn hex_value(d: Seq<char>) -> nat
    decreases d.len(),
{
    if d.len() == 0 {
        0
    } else {
        hex_value(d.drop_last()) * 16 + hex_digit_value(d.last()).unwrap_or(0)
    }
}

/// `0x` followed by one or more hexadecimal digits.
pub open spec fn is_hex_literal(s: Seq<char>) -> bool {
    s.len() > 2 && s[0] == '0' && s[1] == 'x' && all_hex_digits(s.skip(2))
}

/// The string holds no ASCII decimal digit.
pub open spec fn has_no_dec_digit(s: Seq<char>) -> bool {
    forall|k: int| 0 <= k < s.len() ==> !('0' <= #[trigger] s[k] && s[k] <= '9')
}

/// One or more ASCII decimal digits.
pub open spec fn is_dec_literal(s: Seq<char>) -> bool {
    s.len() > 0 && forall|k: int| 0 <= k < s.len() ==> is_dec_digit(#[trigger] s[k])
}

/// What `parse_int::parse::<u8>` returns, as far as it is stated here: the
/// value of `0x` and hexadecimal digits, or of decimal digits, where it fits;
/// nothing for a string without a decimal digit.
pub open spec fn int_u8_of(s: Seq<char>) -> Option<u8> {
    if is_hex_literal(s) && hex_value(s.skip(2)) <= u8::MAX {
        Some(hex_value(s.skip(2)) as u8)
    } else if is_dec_literal(s) {
        if dec_value(s) <= u8::MAX {
            Some(dec_value(s) as u8)
        } else {
            None
        }
    } else if has_no_dec_digit(s) {
        None
    } else {
        parse_int_u8_of(s)
    }
}

/// What `parse_int::parse::<u32>` returns, as far as it is stated here: the
/// value of `0x` and hexadecimal digits, or of decimal digits, where it fits;
/// nothing for a string without a decimal digit.
pub open spec fn int_u32_of(s: Seq<char>) -> Option<u32> {
    if is_hex_literal(s) && hex_value(s.skip(2)) <= u32::MAX {
        Some(hex_value(s.skip(2)) as u32)
    } else if is_dec_literal(s) {
        decimal_of(s)
    } else if has_no_dec_digit(s) {
        None
    } else {
        parse_int_u32_of(s)
    }
}

/// Relies on `parse_int::parse::<u8>`: on `0x` and hexadecimal digits, and
/// on decimal digits (base 10, as the `implicit-octal` feature is off), it
/// returns their value where that fits; a string without a decimal digit is
/// no integer (`from_str_radix` needs digits, and every prefix starts with
/// `0`).
#[verifier::external_body]
fn parse_int_u8(s: &str) -> (r: Option<u8>)
    ensures
        r == parse_int_u8_of(s@),
        is_hex_literal(s@) && hex_value(s@.skip(2)) <= u8::MAX ==> r == Some(
            hex_value(s@.skip(2)) as u8,
        ),
        is_dec_literal(s@) ==> r == (if dec_value(s@) <= u8::MAX {
            Some(dec_value(s@) as u8)
        } else {
            None
        }),
        has_no_dec_digit(s@) ==> r is None,
{
    parse_int::parse::<u8>(s).ok()
}

/// Relies on `parse_int::parse::<u32>`: on `0x` and hexadecimal digits, and
/// on decimal digits, it returns their value where that fits; a string
/// without a decimal digit is no integer.
#[verifier::external_body]
fn parse_int_u32(s: &str) -> (r: Option<u32>)
    ensures
        r == parse_int_u32_of(s@),
        is_hex_literal(s@) && hex_value(s@.skip(2)) <= u32::MAX ==> r == Some(
            hex_value(s@.skip(2)) as u32,
        ),
        is_dec_literal(s@) ==> r == decimal_of(s@),
        has_no_dec_digit(s@) ==> r is None,
{
    parse_int::parse::<u32>(s).ok()
}

/// The text of a capture group, if it took part in the match.
pub open spec fn group_view(g: Option<String>) -> Option<Seq<char>> {
    match g {
        Some(x) => Some(x@),
        None => None,
    }
}

/// Relies on `regex::Regex::new` and `regex::Regex::captures`: the capture
/// groups after the whole match, each `None` where it took no part.
#[verifier::external_body]
fn regex_captures(pattern: &str, s: &str) -> (r: Option<Vec<Option<String>>>)
    ensures
        match r {
            Some(v) => regex_captures_of(pattern@, s@) == Some(
                v@.map_values(|g: Option<String>| group_view(g)),
            ),
            None => regex_captures_of(pattern@, s@) is None,
        },
{
    let re = regex::Regex::new(pattern).ok()?;
    let caps = re.captures(s)?;
    Some(caps.iter().skip(1).map(|m| m.map(|m| m.as_str().to_string())).collect())
}

/// The fields of records, as character sequences.
pub open spec fn records_view(v: Seq<Vec<String>>) -> Seq<Seq<Seq<char>>> {
    v.map_values(|r: Vec<String>| r@.map_values(|f: String| f@))
}

/// Relies on `csv::ReaderBuilder` (comment lines, flexible rows, no header,
/// fields trimmed) and `csv::Reader::records`: the records of `text`. It does
/// not fail here: the reader reads a byte slice (no I/O error), rows may have
/// any length, and a text split at ASCII bytes stays UTF-8.
#[verifier::external_body]
fn csv_read_records(text: &str, comment: u8) -> (r: Result<Vec<Vec<String>>, csv::ErrorKind>)
    requires
        comment < 0x80,
    ensures
        r is Ok,
        r matches Ok(v) ==> records_view(v@) == csv_records_of(comment, text@),
{
    let mut reader = csv::ReaderBuilder::new().comment(Some(comment)).flexible(true).has_headers(
        false,
    ).trim(csv::Trim::All).from_reader(text.as_bytes());
    let mut out = Vec::new();
    for record in reader.records() {
        out.push(record.map_err(|e| e.into_kind())?.iter().map(String::from).collect());
    }
    Ok(out)
}

/// Relies on `csv::Writer::write_record` (no header): one record as a line,
/// fields quoted where needed. It does not fail here: the first record of a
/// writer sets the field count, and writing into a `Vec` has no I/O error.
#[verifier::external_body]
fn csv_write_record(fields: &Vec<String>) -> (r: Result<String, csv::ErrorKind>)
    ensures
        r is Ok,
        r matches Ok(line) ==> line@ == csv_line_of(fields@.map_values(|f: String| f@)),
{
    let mut writer = csv::WriterBuilder::new().has_headers(false).from_writer(Vec::new());
    writer.write_record(fields).map_err(|e| e.into_kind())?;
    let bytes = writer.into_inner().map_err(|e| csv::ErrorKind::Io(e.into_error()))?;
    Ok(String::from_utf8_lossy(&bytes).into_owned())
}

// ---------------------------------------------------------------------------
// Fields of a row.

/// The number of leading characters of `s` that fit in the 16 bytes of a
/// name, counting from `k` on: the longest prefix of whole characters whose
/// UTF-8 encoding is at most 16 bytes long.
pub open spec fn fitting_chars(s: Seq<char>, k: nat) -> nat
    decreases s.len() - k,
{
    if k < s.len() && encode_utf8(s.take(k + 1 as int)).len() <= MAX_NAME_LEN {
        fitting_chars(s, (k + 1) as nat)
    } else {
        k
    }
}

/// The name field of a row: the longest prefix of whole characters that fits
/// in 16 bytes, padded with NULs to the 17 bytes of a name and its
/// terminator.
pub open spec fn name_field_of(s: Seq<char>) -> Seq<char> {
    let kept = s.take(fitting_chars(s, 0) as int);
    kept + nuls((MAX_NAME_LEN + 1 - encode_utf8(kept).len()) as nat)
}

/// The number of UTF-8 bytes of a character.
fn utf8_width(c: char) -> (r: usize)
    ensures
        r == encode_utf8(seq![c]).len(),
        1 <= r <= 4,
{
    proof {
        char_is_scalar(c);
        assert(seq![c].drop_first() =~= Seq::<char>::empty());
        assert(encode_utf8(Seq::<char>::empty()) =~= Seq::<u8>::empty());
        assert(encode_utf8(seq![c]) =~= encode_scalar(c as u32));
    }
    let v = c as u32;
    if v <= 0x7F {
        1
    } else if v <= 0x7FF {
        2
    } else if v <= 0xFFFF {
        3
    } else {
        4
    }
}

/// The UTF-8 length of a prefix grows by that of the next character.
proof fn lemma_prefix_width(s: Seq<char>, i: int)
    requires
        0 <= i < s.len(),
    ensures
        encode_utf8(s.take(i + 1)).len() == encode_utf8(s.take(i)).len() + encode_utf8(
            seq![s[i]],
        ).len(),
{
    lemma_encode_utf8_concat(s.take(i), seq![s[i]]);
    assert(s.take(i) + seq![s[i]] =~= s.take(i + 1));
}

/// Reads the name column: the longest prefix of whole characters that fits
/// in 16 bytes, padded with NULs to the 17 bytes of a name and its
/// terminator.
pub fn parse_name(s: &str) -> (r: String)
    ensures
        r@ == name_field_of(s@),
{
    let chars = chars_of(s);
    let mut kept: Vec<char> = Vec::new();
    let mut used: usize = 0;
    let mut i: usize = 0;
    assert(s@.take(0) =~= Seq::<char>::empty());
    while i < chars.len() && used + utf8_width(chars[i]) <= MAX_NAME_LEN
        invariant
            chars@ == s@,
            0 <= i <= chars@.len(),
            kept@ == s@.take(i as int),
            used == encode_utf8(s@.take(i as int)).len(),
            used <= MAX_NAME_LEN,
            fitting_chars(s@, 0) == fitting_chars(s@, i as nat),
        decreases chars@.len() - i,
    {
        proof {
            lemma_prefix_width(s@, i as int);
        }
        used = used + utf8_width(chars[i]);
        kept.push(chars[i]);
        i = i + 1;
        assert(kept@ =~= s@.take(i as int));
    }
    if i < chars.len() {
        proof {
            lemma_prefix_width(s@, i as int);
        }
    }
    assert(fitting_chars(s@, 0) == i);
    let mut out = string_of_chars(kept.as_slice());
    let mut pad: usize = 0;
    while used + pad < MAX_NAME_LEN + 1
        invariant
            used <= MAX_NAME_LEN,
            out@ == kept@ + nuls(pad as nat),
            used + pad <= MAX_NAME_LEN + 1,
        decreases MAX_NAME_LEN + 1 - used - pad,
    {
        push_char(&mut out, '\0');
        pad = pad + 1;
        assert(out@ =~= kept@ + nuls(pad as nat));
    }
    out
}

/// The partition type that the type column names.
pub open spec fn type_of_text(s: Seq<char>) -> Result<Type, ErrorView> {
    let n = int_u8_of(s);
    if s == "app"@ || n == Some(0u8) {
        Ok(Type::App)
    } else if s == "data"@ || n == Some(1u8) {
        Ok(Type::Data)
    } else if let Some(v) = n {
        Ok(Type::Custom(v))
    } else {
        Err(ErrorView::InvalidType(s))
    }
}

/// Reads the type column: `app`, `data`, or an integer literal, where 0 and
/// 1 stand for `app` and `data`.
pub fn parse_type(s: &str) -> (r: Result<Type, Error>)
    ensures
        result_type_view(r) == type_of_text(s@),
{
    let n = parse_int_u8(s);
    if str_eq(s, "app") || n == Some(0u8) {
        Ok(Type::App)
    } else if str_eq(s, "data") || n == Some(1u8) {
        Ok(Type::Data)
    } else if let Some(v) = n {
        Ok(Type::Custom(v))
    } else {
        Err(Error::InvalidType(s.to_owned()))
    }
}

/// The view of a result holding a plain value.
pub open spec fn result_type_view<T>(r: Result<T, Error>) -> Result<T, ErrorView> {
    match r {
        Ok(v) => Ok(v),
        Err(e) => Err(e@),
    }
}

/// The sub-type that the sub-type column names.
pub open spec fn subtype_of_text(s: Seq<char>) -> Result<SubType, ErrorView> {
    if let Some(a) = app_type_of_name(s) {
        Ok(SubType::App(a))
    } else if let Some(d) = data_type_of_name(s) {
        Ok(SubType::Data(d))
    } else if let Some(n) = int_u8_of(s) {
        Ok(SubType::Custom(n))
    } else {
        Err(ErrorView::InvalidSubtype(s))
    }
}

/// Reads the sub-type column: an `app` sub-type name, else a `data` sub-type
/// name, else an integer literal.
pub fn parse_subtype(s: &str) -> (r: Result<SubType, Error>)
    ensures
        result_type_view(r) == subtype_of_text(s@),
{
    if let Some(a) = AppType::from_name(s) {
        Ok(SubType::App(a))
    } else if let Some(d) = DataType::from_name(s) {
        Ok(SubType::Data(d))
    } else if let Some(n) = parse_int_u8(s) {
        Ok(SubType::Custom(n))
    } else {
        Err(Error::InvalidSubtype(s.to_owned()))
    }
}

/// The pattern of a size with a multiplier suffix: decimal digits, then one
/// of `k`, `K`, `m`, `M`.
pub const SIZE_SUFFIX_PATTERN: &'static str = "(?i)^(\\d+)([km]{1})$";

/// The character is an ASCII decimal digit.
pub open spec fn is_dec_digit(c: char) -> bool {
    '0' <= c && c <= '9'
}

/// The value of a sequence of decimal digits.
pub open spec fn dec_value(d: Seq<char>) -> nat
    decreases d.len(),
{
    if d.len() == 0 {
        0
    } else {
        dec_value(d.drop_last()) * 10 + (d.last() as u32 - '0' as u32) as nat
    }
}

/// The value of one or more ASCII decimal digits, where it fits in 32 bits.
pub open spec fn decimal_of(d: Seq<char>) -> Option<u32> {
    if d.len() > 0 && (forall|k: int| 0 <= k < d.len() ==> is_dec_digit(#[trigger] d[k]))
        && dec_value(d) <= u32::MAX {
        Some(dec_value(d) as u32)
    } else {
        None
    }
}

/// The factor of a size suffix: 1024 for `k`, 1024 * 1024 for `m`, either case.
pub open spec fn multiplier_of(m: Seq<char>) -> Option<nat> {
    if m == "k"@ || m == "K"@ {
        Some(1024)
    } else if m == "m"@ || m == "M"@ {
        Some(1024 * 1024)
    } else {
        None
    }
}

/// The value of an offset or size column: `Some(None)` where it is empty,
/// `None` where it holds no 32-bit value.
pub open spec fn offset_or_size_of(s: Seq<char>) -> Option<Option<u32>> {
    if s.len() == 0 {
        Some(None)
    } else if let Some(v) = int_u32_of(s) {
        Some(Some(v))
    } else if let Some(g) = regex_captures_of(SIZE_SUFFIX_PATTERN@, s) {
        match suffixed_value_of(g) {
            Some(v) => Some(Some(v)),
            None => None,
        }
    } else {
        None
    }
}

/// The size that the two capture groups of a suffixed size stand for:
/// the decimal digits times the factor of the suffix, where that fits in 32
/// bits.
pub open spec fn suffixed_value_of(g: Seq<Option<Seq<char>>>) -> Option<u32> {
    if g.len() == 2 && g[0] is Some && g[1] is Some {
        match (decimal_of(g[0]->Some_0), multiplier_of(g[1]->Some_0)) {
            (Some(d), Some(m)) => if d * m <= u32::MAX {
                Some((d * m) as u32)
            } else {
                None
            },
            _ => None,
        }
    } else {
        None
    }
}

/// Reads a size with a multiplier suffix from the capture groups of
/// `SIZE_SUFFIX_PATTERN`: the digits times 1024 for `k`/`K` or 1024 * 1024
/// for `m`/`M`; `None` where the groups hold no such size or it does not fit
/// in 32 bits.
pub fn suffixed_size(groups: &Vec<Option<String>>) -> (r: Option<u32>)
    ensures
        r == suffixed_value_of(groups@.map_values(|g: Option<String>| group_view(g))),
{
    let ghost g = groups@.map_values(|g: Option<String>| group_view(g));
    if groups.len() != 2 {
        return None;
    }
    let digits = match &groups[0] {
        Some(x) => x,
        None => {
            return None;
        },
    };
    let suffix = match &groups[1] {
        Some(x) => x,
        None => {
            return None;
        },
    };
    assert(g[0] == Some(digits@));
    assert(g[1] == Some(suffix@));
    let d = match decimal_value(digits.as_str()) {
        Some(d) => d,
        None => {
            return None;
        },
    };
    let m: u32 = if str_eq(suffix.as_str(), "k") || str_eq(suffix.as_str(), "K") {
        1024
    } else if str_eq(suffix.as_str(), "m") || str_eq(suffix.as_str(), "M") {
        1024 * 1024
    } else {
        return None;
    };
    if d as u64 * m as u64 > u32::MAX as u64 {
        return None;
    }
    Some(d * m)
}

/// The value of one or more ASCII decimal digits, where it fits in 32 bits.
fn decimal_value(d: &str) -> (r: Option<u32>)
    ensures
        r == decimal_of(d@),
{
    let chars = chars_of(d);
    if chars.len() == 0 {
        return None;
    }
    let cap: u64 = 0x1_0000_0000;
    let mut value: u64 = 0;
    let mut i: usize = 0;
    while i < chars.len()
        invariant
            chars@ == d@,
            0 <= i <= chars@.len(),
            cap == 0x1_0000_0000,
            forall|k: int| 0 <= k < i ==> is_dec_digit(#[trigger] d@[k]),
            value == (if dec_value(d@.take(i as int)) < cap {
                dec_value(d@.take(i as int))
            } else {
                cap as nat
            }),
        decreases chars@.len() - i,
    {
        let c = chars[i];
        if !('0' <= c && c <= '9') {
            return None;
        }
        assert(d@.take(i + 1).drop_last() =~= d@.take(i as int));
        let digit = (c as u32 - '0' as u32) as u64;
        let next = value * 10 + digit;
        value = if next < cap { next } else { cap };
        i = i + 1;
    }
    assert(d@.take(i as int) =~= d@);
    if value < cap {
        Some(value as u32)
    } else {
        None
    }
}

/// Reads an offset or size column: empty, an integer literal, or decimal
/// digits followed by `k`/`K` (times 1024) or `m`/`M` (times 1024 * 1024).
pub fn parse_offset_or_size(s: &str) -> (r: Result<Option<u32>, Error>)
    ensures
        match r {
            Ok(v) => offset_or_size_of(s@) == Some(v),
            Err(e) => offset_or_size_of(s@) is None && e@ == ErrorView::InvalidOffset(s@),
        },
{
    if s.is_empty() {
        return Ok(None);
    }
    if let Some(v) = parse_int_u32(s) {
        return Ok(Some(v));
    }
    let groups = match regex_captures(SIZE_SUFFIX_PATTERN, s) {
        Some(g) => g,
        None => {
            return Err(Error::InvalidOffset(s.to_owned()));
        },
    };
    match suffixed_size(&groups) {
        Some(v) => Ok(Some(v)),
        None => Err(Error::InvalidOffset(s.to_owned())),
    }
}

/// The value of an offset column: `None` where it is empty.
pub open spec fn offset_of_text(s: Seq<char>) -> Result<Option<u32>, ErrorView> {
    match offset_or_size_of(s) {
        Some(v) => Ok(v),
        None => Err(ErrorView::InvalidOffset(s)),
    }
}

/// The value of a size column, which may not be empty.
pub open spec fn size_of_text(s: Seq<char>) -> Result<u32, ErrorView> {
    match offset_or_size_of(s) {
        Some(Some(v)) => Ok(v),
        _ => Err(ErrorView::InvalidSize(s)),
    }
}

/// Reads the offset column; empty means that the offset is to be assigned.
pub fn parse_offset(s: &str) -> (r: Result<Option<u32>, Error>)
    ensures
        result_type_view(r) == offset_of_text(s@),
{
    parse_offset_or_size(s)
}

/// Reads the size column, which may not be empty.
pub fn parse_size(s: &str) -> (r: Result<u32, Error>)
    ensures
        result_type_view(r) == size_of_text(s@),
{
    match parse_offset_or_size(s) {
        Ok(Some(v)) => Ok(v),
        _ => Err(Error::InvalidSize(s.to_owned())),
    }
}

/// The tokens of `s` between colons, from left to right.
pub open spec fn split_colon(s: Seq<char>) -> Seq<Seq<char>>
    decreases s.len(),
{
    if s.len() == 0 {
        seq![Seq::<char>::empty()]
    } else {
        let rest = split_colon(s.drop_last());
        if s.last() == ':' {
            rest.push(Seq::<char>::empty())
        } else {
            rest.update(rest.len() - 1, rest.last().push(s.last()))
        }
    }
}

/// `split_colon` never gives an empty sequence.
proof fn lemma_split_colon_nonempty(s: Seq<char>)
    ensures
        split_colon(s).len() > 0,
    decreases s.len(),
{
    if s.len() > 0 {
        lemma_split_colon_nonempty(s.drop_last());
    }
}

/// The flags that the flags column names: colon-separated tokens, each
/// `encrypted` or `readonly`; empty for none.
pub open spec fn flags_of_text(s: Seq<char>) -> Result<Flags, ErrorView> {
    let toks = split_colon(s);
    if s.len() == 0 {
        Ok(Flags::of(false, false))
    } else if forall|k: int| 0 <= k < toks.len() ==> #[trigger] toks[k] == "encrypted"@ || toks[k]
        == "readonly"@ {
        Ok(
            Flags::of(
                exists|k: int| 0 <= k < toks.len() && #[trigger] toks[k] == "encrypted"@,
                exists|k: int| 0 <= k < toks.len() && #[trigger] toks[k] == "readonly"@,
            ),
        )
    } else {
        Err(ErrorView::InvalidFlags(s))
    }
}

/// The views of a sequence of character vectors.
pub open spec fn tokens_view(v: Seq<Vec<char>>) -> Seq<Seq<char>> {
    v.map_values(|t: Vec<char>| t@)
}

/// Reads the flags column: colon-separated `encrypted` and `readonly`
/// tokens; empty for none.
pub fn parse_flags(s: &str) -> (r: Result<Flags, Error>)
    ensures
        result_type_view(r) == flags_of_text(s@),
{
    if s.is_empty() {
        return Ok(Flags::empty());
    }
    let chars = chars_of(s);
    let mut toks: Vec<Vec<char>> = Vec::new();
    let mut cur: Vec<char> = Vec::new();
    let mut i: usize = 0;
    assert(s@.take(0) =~= Seq::<char>::empty());
    assert(tokens_view(toks@).push(cur@) =~= split_colon(s@.take(0)));
    while i < chars.len()
        invariant
            chars@ == s@,
            0 <= i <= chars@.len(),
            tokens_view(toks@).push(cur@) == split_colon(s@.take(i as int)),
        decreases chars@.len() - i,
    {
        let c = chars[i];
        assert(s@.take(i + 1).drop_last() =~= s@.take(i as int));
        let ghost before = tokens_view(toks@).push(cur@);
        proof {
            lemma_split_colon_nonempty(s@.take(i as int));
        }
        if c == ':' {
            let done = cur;
            toks.push(done);
            cur = Vec::new();
            assert(tokens_view(toks@).push(cur@) =~= before.push(Seq::<char>::empty()));
        } else {
            cur.push(c);
            assert(tokens_view(toks@).push(cur@) =~= before.update(
                before.len() - 1,
                before.last().push(c),
            ));
        }
        i = i + 1;
    }
    assert(s@.take(i as int) =~= s@);
    toks.push(cur);
    let ghost all = split_colon(s@);
    assert(tokens_view(toks@) == all);
    let mut encrypted = false;
    let mut readonly = false;
    let mut k: usize = 0;
    while k < toks.len()
        invariant
            tokens_view(toks@) == all,
            all == split_colon(s@),
            s@.len() > 0,
            0 <= k <= toks@.len(),
            forall|m: int| 0 <= m < k ==> #[trigger] all[m] == "encrypted"@ || all[m]
                == "readonly"@,
            encrypted == (exists|m: int| 0 <= m < k && #[trigger] all[m] == "encrypted"@),
            readonly == (exists|m: int| 0 <= m < k && #[trigger] all[m] == "readonly"@),
        decreases toks@.len() - k,
    {
        let tok = string_of_chars(toks[k].as_slice());
        assert(tok@ == all[k as int]);
        proof {
            reveal_strlit("encrypted");
            reveal_strlit("readonly");
        }
        if str_eq(tok.as_str(), "encrypted") {
            encrypted = true;
        } else if str_eq(tok.as_str(), "readonly") {
            readonly = true;
        } else {
            assert(!(all[k as int] == "encrypted"@ || all[k as int] == "readonly"@));
            assert(!(forall|m: int|
                0 <= m < all.len() ==> #[trigger] all[m] == "encrypted"@ || all[m]
                    == "readonly"@));
            return Err(Error::InvalidFlags(s.to_owned()));
        }
        k = k + 1;
    }
    Ok(Flags::new(encrypted, readonly))
}

/// The byte that starts a comment line of the text format.
pub const COMMENT: u8 = 0x23;

/// The cursor that offset assignment starts from: the conventional table
/// address 0x8000 plus the 0x1000 bytes reserved for the table.
pub const DEFAULT_CURSOR: u64 = 0x9000;

/// The alignment of an assigned offset: 0x10000 for `app`, 4 for the others.
pub open spec fn alignment_of(ty: Type) -> int {
    if ty == Type::App {
        0x10000
    } else {
        4
    }
}

/// `c` rounded up to a multiple of `a`.
pub open spec fn align_up(c: int, a: int) -> int {
    if c % a == 0 {
        c
    } else {
        c + a - c % a
    }
}

/// The offset of a row: the given one, else the cursor rounded up to the
/// alignment of the row's type.
pub open spec fn offset_at(ty: Type, offset: Option<u32>, cursor: int) -> int {
    match offset {
        Some(o) => o as int,
        None => align_up(cursor, alignment_of(ty)),
    }
}

/// The final offset of a row and the cursor for the next row (the offset plus
/// the size); `None` where an assigned offset does not fit in 32 bits.
pub fn fix_offset(ty: Type, offset: Option<u32>, size: u32, cursor: u64) -> (r: Option<(u32, u64)>)
    ensures
        ({
            let o = offset_at(ty, offset, cursor as int);
            &&& o <= u32::MAX ==> r == Some((o as u32, (o + size) as u64))
            &&& o > u32::MAX ==> r is None
        }),
{
    let o: u32 = match offset {
        Some(o) => o,
        None => {
            if cursor > u32::MAX as u64 {
                return None;
            }
            let alignment: u64 = if ty == Type::App { 0x10000 } else { 4 };
            let c = if cursor % alignment != 0 {
                cursor + alignment - cursor % alignment
            } else {
                cursor
            };
            if c > u32::MAX as u64 {
                return None;
            }
            c as u32
        },
    };
    Some((o, o as u64 + size as u64))
}

/// The sub-type of a row, with the ID of an `app` or `data` sub-type read as
/// a sub-type of the row's type.
pub open spec fn normalized_subtype(ty: Type, st: SubType) -> Result<SubType, ErrorView> {
    match ty {
        Type::App => match app_type_of_code(subtype_code(st)) {
            Some(a) => Ok(SubType::App(a)),
            None => Err(ErrorView::UnknownSubtype { ty: 0x00, subtype: subtype_code(st) }),
        },
        Type::Data => match data_type_of_code(subtype_code(st)) {
            Some(d) => Ok(SubType::Data(d)),
            None => Err(ErrorView::UnknownSubtype { ty: 0x01, subtype: subtype_code(st) }),
        },
        Type::Custom(_) => Ok(st),
    }
}

/// The flags column of a row; a row of five columns has no flags.
pub open spec fn row_flags(row: Seq<Seq<char>>) -> Result<Flags, ErrorView> {
    if row.len() > 5 {
        flags_of_text(row[5])
    } else {
        Ok(Flags::of(false, false))
    }
}

/// The partition of a row, and the cursor for the next row, given the cursor
/// for this one. The columns are read in order (name, type, sub-type, offset,
/// size, flags); further columns are ignored.
pub open spec fn row_of(row: Seq<Seq<char>>, cursor: int) -> Result<(PartitionView, int), ErrorView> {
    if row.len() < 5 {
        Err(ErrorView::MissingColumns)
    } else {
        match type_of_text(row[1]) {
            Err(e) => Err(e),
            Ok(ty) => match subtype_of_text(row[2]) {
                Err(e) => Err(e),
                Ok(st) => match offset_of_text(row[3]) {
                    Err(e) => Err(e),
                    Ok(off) => match size_of_text(row[4]) {
                        Err(e) => Err(e),
                        Ok(size) => match row_flags(row) {
                            Err(e) => Err(e),
                            Ok(flags) => {
                                let o = offset_at(ty, off, cursor);
                                if o > u32::MAX {
                                    Err(ErrorView::OffsetOverflow)
                                } else {
                                    match normalized_subtype(ty, st) {
                                        Err(e) => Err(e),
                                        Ok(subtype) => Ok(
                                            (
                                                PartitionView {
                                                    name: trim_nul(name_field_of(row[0])),
                                                    ty,
                                                    subtype,
                                                    offset: o as u32,
                                                    size,
                                                    flags,
                                                },
                                                o + size,
                                            ),
                                        ),
                                    }
                                }
                            },
                        },
                    },
                },
            },
        }
    }
}

/// A record with no content: no field, or one empty field.
pub open spec fn is_blank_row(row: Seq<Seq<char>>) -> bool {
    row.len() == 0 || (row.len() == 1 && row[0].len() == 0)
}

/// Reads the rows from index `i` on, with the cursor for row `i` and the
/// partitions of the rows before it.
pub open spec fn rows_from(
    rows: Seq<Seq<Seq<char>>>,
    i: nat,
    cursor: int,
    parts: Seq<PartitionView>,
) -> Result<Seq<PartitionView>, ErrorView>
    decreases rows.len() - i,
{
    if i >= rows.len() {
        Ok(parts)
    } else if is_blank_row(rows[i as int]) {
        rows_from(rows, i + 1, cursor, parts)
    } else {
        match row_of(rows[i as int], cursor) {
            Ok((p, next)) => rows_from(rows, i + 1, next, parts.push(p)),
            Err(e) => Err(e),
        }
    }
}

/// The partitions of a sequence of rows, the first one's cursor at 0x9000.
pub open spec fn decode_rows(rows: Seq<Seq<Seq<char>>>) -> Result<Seq<PartitionView>, ErrorView> {
    rows_from(rows, 0, DEFAULT_CURSOR as int, seq![])
}

/// The sub-type of a row, with the ID of an `app` or `data` sub-type read as
/// a sub-type of the row's type.
fn normalize_subtype(ty: Type, st: SubType) -> (r: Result<SubType, Error>)
    ensures
        result_type_view(r) == normalized_subtype(ty, st),
{
    match ty {
        Type::App => match AppType::from_u8(st.as_u8()) {
            Some(a) => Ok(SubType::App(a)),
            None => Err(Error::UnknownSubtype { ty: 0x00, subtype: st.as_u8() }),
        },
        Type::Data => match DataType::from_u8(st.as_u8()) {
            Some(d) => Ok(SubType::Data(d)),
            None => Err(Error::UnknownSubtype { ty: 0x01, subtype: st.as_u8() }),
        },
        Type::Custom(_) => Ok(st),
    }
}

/// Reads one row into a partition, given the cursor for offset assignment;
/// returns the partition and the cursor for the next row.
pub fn partition_from_row(row: &Vec<String>, cursor: u64) -> (r: Result<(Partition, u64), Error>)
    ensures
        match r {
            Ok((p, next)) => row_of(row@.map_values(|f: String| f@), cursor as int) == Ok::<
                (PartitionView, int),
                ErrorView,
            >((p@, next as int)),
            Err(e) => row_of(row@.map_values(|f: String| f@), cursor as int) == Err::<
                (PartitionView, int),
                ErrorView,
            >(e@),
        },
{
    let ghost cols = row@.map_values(|f: String| f@);
    if row.len() < 5 {
        return Err(Error::MissingColumns);
    }
    assert(cols[0] == row@[0]@ && cols[1] == row@[1]@ && cols[2] == row@[2]@);
    assert(cols[3] == row@[3]@ && cols[4] == row@[4]@);
    let name_field = parse_name(row[0].as_str());
    let ty = parse_type(row[1].as_str())?;
    let st = parse_subtype(row[2].as_str())?;
    let offset = parse_offset(row[3].as_str())?;
    let size = parse_size(row[4].as_str())?;
    let flags = if row.len() > 5 {
        assert(cols[5] == row@[5]@);
        parse_flags(row[5].as_str())?
    } else {
        Flags::empty()
    };
    let (o, next) = match fix_offset(ty, offset, size, cursor) {
        Some(x) => x,
        None => {
            return Err(Error::OffsetOverflow);
        },
    };
    let subtype = normalize_subtype(ty, st)?;
    let name_chars = chars_of(name_field.as_str());
    let name = trim_nul_string(name_chars.as_slice());
    Ok((Partition { name, ty, subtype, offset: o, size, flags }, next))
}

/// Reads rows into partitions, in order, skipping blank rows and assigning
/// missing offsets from a cursor that starts at 0x9000.
pub fn partitions_from_rows(rows: &Vec<Vec<String>>) -> (r: Result<Vec<Partition>, Error>)
    ensures
        match r {
            Ok(v) => decode_rows(records_view(rows@)) == Ok::<Seq<PartitionView>, ErrorView>(
                crate::binary::views(v@),
            ),
            Err(e) => decode_rows(records_view(rows@)) == Err::<Seq<PartitionView>, ErrorView>(
                e@,
            ),
        },
{
    let ghost all = records_view(rows@);
    let mut parts: Vec<Partition> = Vec::new();
    let mut cursor: u64 = DEFAULT_CURSOR;
    let mut i: usize = 0;
    assert(crate::binary::views(parts@) =~= Seq::<PartitionView>::empty());
    while i < rows.len()
        invariant
            all == records_view(rows@),
            0 <= i <= rows@.len(),
            cursor <= 2 * (u32::MAX as u64),
            decode_rows(all) == rows_from(
                all,
                i as nat,
                cursor as int,
                crate::binary::views(parts@),
            ),
        decreases rows@.len() - i,
    {
        let row = &rows[i];
        assert(all[i as int] == row@.map_values(|f: String| f@));
        let blank = row.len() == 0 || (row.len() == 1 && row[0].as_str().is_empty());
        if !blank {
            let (p, next) = partition_from_row(row, cursor)?;
            let ghost old_parts = parts@;
            parts.push(p);
            assert(crate::binary::views(parts@) =~= crate::binary::views(old_parts).push(p@));
            cursor = next;
        }
        i = i + 1;
    }
    Ok(parts)
}

/// Decodes the text format into its partitions, in order: the csv reader
/// splits the text into rows, which are then read as `partitions_from_rows`
/// does.
pub fn decode_text(text: &str) -> (r: Result<Vec<Partition>, Error>)
    ensures
        match r {
            Ok(v) => decode_rows(csv_records_of(COMMENT, text@)) == Ok::<
                Seq<PartitionView>,
                ErrorView,
            >(crate::binary::views(v@)),
            Err(e) => decode_rows(csv_records_of(COMMENT, text@)) == Err::<
                Seq<PartitionView>,
                ErrorView,
            >(e@),
        },
{
    match csv_read_records(text, COMMENT) {
        Ok(rows) => partitions_from_rows(&rows),
        Err(kind) => Err(Error::CsvError(kind)),
    }
}

/// The lowercase hexadecimal digit of a value below 16.
pub open spec fn hex_char(d: nat) -> char {
    if d == 0 {
        '0'
    } else if d == 1 {
        '1'
    } else if d == 2 {
        '2'
    } else if d == 3 {
        '3'
    } else if d == 4 {
        '4'
    } else if d == 5 {
        '5'
    } else if d == 6 {
        '6'
    } else if d == 7 {
        '7'
    } else if d == 8 {
        '8'
    } else if d == 9 {
        '9'
    } else if d == 10 {
        'a'
    } else if d == 11 {
        'b'
    } else if d == 12 {
        'c'
    } else if d == 13 {
        'd'
    } else if d == 14 {
        'e'
    } else {
        'f'
    }
}

/// The hexadecimal digits of `x`, without leading zeros.
pub open spec fn hex_digits(x: nat) -> Seq<char>
    decreases x,
{
    if x < 16 {
        seq![hex_char(x)]
    } else {
        hex_digits(x / 16).push(hex_char(x % 16))
    }
}

/// `x` written as `0x` and lowercase hexadecimal digits.
pub open spec fn hex_text(x: nat) -> Seq<char> {
    seq!['0', 'x'] + hex_digits(x)
}

/// A byte written as `0x` and two lowercase hexadecimal digits.
pub open spec fn byte_text(n: u8) -> Seq<char> {
    seq!['0', 'x', hex_char(n as nat / 16), hex_char(n as nat % 16)]
}

/// The type column of a partition.
pub open spec fn type_text(ty: Type) -> Seq<char> {
    match ty {
        Type::App => "app"@,
        Type::Data => "data"@,
        Type::Custom(n) => byte_text(n),
    }
}

/// The sub-type column of a partition.
pub open spec fn subtype_text(st: SubType) -> Seq<char> {
    match st {
        SubType::App(a) => app_type_name(a),
        SubType::Data(d) => data_type_name(d),
        SubType::Custom(n) => byte_text(n),
    }
}

/// The flags column of a partition: the set flags, `encrypted` before
/// `readonly`, joined by a colon.
pub open spec fn flags_text(f: Flags) -> Seq<char> {
    if f.spec_encrypted() && f.spec_readonly() {
        "encrypted"@ + ":"@ + "readonly"@
    } else if f.spec_encrypted() {
        "encrypted"@
    } else if f.spec_readonly() {
        "readonly"@
    } else {
        Seq::<char>::empty()
    }
}

/// The six columns of the row of a partition.
pub open spec fn row_fields(p: PartitionView) -> Seq<Seq<char>> {
    seq![
        p.name,
        type_text(p.ty),
        subtype_text(p.subtype),
        hex_text(p.offset as nat),
        hex_text(p.size as nat),
        flags_text(p.flags),
    ]
}

/// The two comment lines that open the text format.
pub open spec fn text_header() -> Seq<char> {
    "# ESP-IDF Partition Table\n"@ + "# Name,Type,SubType,Offset,Size,Flags\n"@
}

/// The lines of the rows of the partitions, in order.
pub open spec fn lines_of(parts: Seq<PartitionView>) -> Seq<char>
    decreases parts.len(),
{
    if parts.len() == 0 {
        Seq::<char>::empty()
    } else {
        lines_of(parts.drop_last()) + csv_line_of(row_fields(parts.last()))
    }
}

/// The text format of a table: the header, then one row per partition.
pub open spec fn encode_text(parts: Seq<PartitionView>) -> Seq<char> {
    text_header() + lines_of(parts)
}

/// Relies on `String::push_str`: appends a string slice.
#[verifier::external_body]
fn push_str(s: &mut String, t: &str)
    ensures
        final(s)@ == old(s)@ + t@,
{
    s.push_str(t)
}

/// The lowercase hexadecimal digit of a value below 16.
fn hex_char_of(d: u32) -> (r: char)
    requires
        d < 16,
    ensures
        r == hex_char(d as nat),
{
    if d == 0 {
        '0'
    } else if d == 1 {
        '1'
    } else if d == 2 {
        '2'
    } else if d == 3 {
        '3'
    } else if d == 4 {
        '4'
    } else if d == 5 {
        '5'
    } else if d == 6 {
        '6'
    } else if d == 7 {
        '7'
    } else if d == 8 {
        '8'
    } else if d == 9 {
        '9'
    } else if d == 10 {
        'a'
    } else if d == 11 {
        'b'
    } else if d == 12 {
        'c'
    } else if d == 13 {
        'd'
    } else if d == 14 {
        'e'
    } else {
        'f'
    }
}

/// Appends the hexadecimal digits of `x`, without leading zeros.
fn push_hex_digits(out: &mut String, x: u32)
    ensures
        final(out)@ == old(out)@ + hex_digits(x as nat),
    decreases x,
{
    if x >= 16 {
        push_hex_digits(out, x / 16);
    }
    push_char(out, hex_char_of(x % 16));
    assert(final(out)@ =~= old(out)@ + hex_digits(x as nat));
}

/// `x` written as `0x` and lowercase hexadecimal digits.
pub fn hex_string(x: u32) -> (r: String)
    ensures
        r@ == hex_text(x as nat),
{
    let mut out = String::new();
    push_char(&mut out, '0');
    push_char(&mut out, 'x');
    push_hex_digits(&mut out, x);
    assert(out@ =~= hex_text(x as nat));
    out
}

/// A byte written as `0x` and two lowercase hexadecimal digits.
pub fn byte_string(n: u8) -> (r: String)
    ensures
        r@ == byte_text(n),
{
    let mut out = String::new();
    push_char(&mut out, '0');
    push_char(&mut out, 'x');
    push_char(&mut out, hex_char_of(n as u32 / 16));
    push_char(&mut out, hex_char_of(n as u32 % 16));
    assert(out@ =~= byte_text(n));
    out
}

impl Type {
    /// The type as the type column writes it: `app`, `data`, or `0x` and two
    /// hexadecimal digits.
    pub fn to_string(&self) -> (r: String)
        ensures
            r@ == type_text(*self),
    {
        match self {
            Type::App => "app".to_owned(),
            Type::Data => "data".to_owned(),
            Type::Custom(n) => byte_string(*n),
        }
    }
}

impl SubType {
    /// The sub-type as the sub-type column writes it: its name, or `0x` and
    /// two hexadecimal digits.
    pub fn to_string(&self) -> (r: String)
        ensures
            r@ == subtype_text(*self),
    {
        match self {
            SubType::App(a) => a.name().to_owned(),
            SubType::Data(d) => d.name().to_owned(),
            SubType::Custom(n) => byte_string(*n),
        }
    }
}

impl Flags {
    /// The flags as the flags column writes them.
    pub fn to_string(&self) -> (r: String)
        ensures
            r@ == flags_text(*self),
    {
        let mut out = String::new();
        if self.is_encrypted() {
            push_str(&mut out, "encrypted");
        }
        if self.is_encrypted() && self.is_readonly() {
            push_str(&mut out, ":");
        }
        if self.is_readonly() {
            push_str(&mut out, "readonly");
        }
        assert(out@ =~= flags_text(*self));
        out
    }
}

impl Partition {
    /// The six columns of this partition's row: name, type, sub-type,
    /// offset and size in hexadecimal, flags.
    pub fn csv_fields(&self) -> (r: Vec<String>)
        ensures
            r@.map_values(|f: String| f@) == row_fields(self@),
    {
        let mut v: Vec<String> = Vec::new();
        v.push(self.name.clone());
        v.push(self.ty.to_string());
        v.push(self.subtype.to_string());
        v.push(hex_string(self.offset));
        v.push(hex_string(self.size));
        v.push(self.flags.to_string());
        assert(v@.map_values(|f: String| f@) =~= row_fields(self@));
        v
    }

    /// Appends this partition's row to `out`, as the csv writer writes it.
    pub fn write_csv(&self, out: &mut String) -> (r: Result<(), Error>)
        ensures
            r is Ok,
            final(out)@ == old(out)@ + csv_line_of(row_fields(self@)),
    {
        let fields = self.csv_fields();
        match csv_write_record(&fields) {
            Ok(line) => {
                push_str(out, line.as_str());
                Ok(())
            },
            Err(kind) => Err(Error::CsvError(kind)),
        }
    }
}

/// Encodes partitions in the text format: the two header comment lines, then
/// one row per partition, in order.
pub fn encode_partitions_text(parts: &[Partition]) -> (r: Result<String, Error>)
    ensures
        r matches Ok(s) && s@ == encode_text(crate::binary::views(parts@)),
{
    let mut out = String::new();
    push_str(&mut out, "# ESP-IDF Partition Table\n");
    push_str(&mut out, "# Name,Type,SubType,Offset,Size,Flags\n");
    let mut i: usize = 0;
    while i < parts.len()
        invariant
            0 <= i <= parts@.len(),
            out@ == text_header() + lines_of(crate::binary::views(parts@).take(i as int)),
        decreases parts@.len() - i,
    {
        let _ = parts[i].write_csv(&mut out);
        i = i + 1;
        assert(crate::binary::views(parts@).take(i as int).drop_last() =~= crate::binary::views(
            parts@,
        ).take(i - 1));
    }
    assert(crate::binary::views(parts@).take(i as int) =~= crate::binary::views(parts@));
    Ok(out)
}

} // verus!
