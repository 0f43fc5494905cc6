use vstd::prelude::*;

use crate::binary::views;
use crate::error::{Error, ErrorView};
use crate::partition::{overlaps, AppType, DataType, Partition, PartitionView, SubType, Type};

verus! {

/// Largest size of an `app` partition: 16 MiB.
pub const MAX_APP_PART_SIZE: u32 = 0x100_0000;

/// Size of the `data`/`ota` partition.
pub const OTADATA_SIZE: u32 = 0x2000;

/// The partition is of type `app`.
pub open spec fn is_app(p: PartitionView) -> bool {
    p.ty == Type::App
}

/// The partition is `app`/`factory`.
pub open spec fn is_factory(p: PartitionView) -> bool {
    p.ty == Type::App && p.subtype == SubType::App(AppType::Factory)
}

/// The partition is `data`/`ota`.
pub open spec fn is_otadata(p: PartitionView) -> bool {
    p.ty == Type::Data && p.subtype == SubType::Data(DataType::Ota)
}

/// The partition's offset is not aligned as its type requires.
pub open spec fn is_misaligned(p: PartitionView) -> bool {
    (p.ty == Type::App && p.offset % 0x10000 != 0) || (p.ty == Type::Data && p.offset % 0x1000
        != 0)
}

/// The partition is an `app` partition larger than 16 MiB.
pub open spec fn is_too_large(p: PartitionView) -> bool {
    p.ty == Type::App && p.size > MAX_APP_PART_SIZE
}

/// The partition is a `data`/`ota` partition of another size than 0x2000.
pub open spec fn has_bad_otadata_size(p: PartitionView) -> bool {
    is_otadata(p) && p.size != OTADATA_SIZE
}

/// The two partitions have the same name.
pub open spec fn same_name(a: PartitionView, b: PartitionView) -> bool {
    a.name == b.name
}

/// [`is_app`] as a predicate.
pub open spec fn app_pred() -> spec_fn(PartitionView) -> bool {
    |p: PartitionView| is_app(p)
}

/// [`is_factory`] as a predicate.
pub open spec fn factory_pred() -> spec_fn(PartitionView) -> bool {
    |p: PartitionView| is_factory(p)
}

/// [`is_otadata`] as a predicate.
pub open spec fn otadata_pred() -> spec_fn(PartitionView) -> bool {
    |p: PartitionView| is_otadata(p)
}

/// [`is_misaligned`] as a predicate.
pub open spec fn misaligned_pred() -> spec_fn(PartitionView) -> bool {
    |p: PartitionView| is_misaligned(p)
}

/// [`is_too_large`] as a predicate.
pub open spec fn too_large_pred() -> spec_fn(PartitionView) -> bool {
    |p: PartitionView| is_too_large(p)
}

/// [`has_bad_otadata_size`] as a predicate.
pub open spec fn bad_otadata_pred() -> spec_fn(PartitionView) -> bool {
    |p: PartitionView| has_bad_otadata_size(p)
}

/// [`same_name`] as a relation.
pub open spec fn same_name_rel() -> spec_fn(PartitionView, PartitionView) -> bool {
    |a: PartitionView, b: PartitionView| same_name(a, b)
}

/// [`overlaps`] as a relation.
pub open spec fn overlaps_rel() -> spec_fn(PartitionView, PartitionView) -> bool {
    |a: PartitionView, b: PartitionView| overlaps(a, b)
}

/// Some partition of `s` satisfies `pred`.
pub open spec fn any(s: Seq<PartitionView>, pred: spec_fn(PartitionView) -> bool) -> bool {
    exists|i: int| 0 <= i < s.len() && #[trigger] pred(s[i])
}

/// Two partitions at distinct positions of `s` both satisfy `pred`.
pub open spec fn two(s: Seq<PartitionView>, pred: spec_fn(PartitionView) -> bool) -> bool {
    exists|i: int, j: int| 0 <= i < j < s.len() && #[trigger] pred(s[i]) && #[trigger] pred(s[j])
}

/// The first position from `i` on whose partition satisfies `pred`.
pub open spec fn first_from(
    s: Seq<PartitionView>,
    pred: spec_fn(PartitionView) -> bool,
    i: int,
) -> Option<int>
    decreases s.len() - i,
{
    if i < 0 || i >= s.len() {
        None
    } else if pred(s[i]) {
        Some(i)
    } else {
        first_from(s, pred, i + 1)
    }
}

/// The first pair of positions `(a, b)`, with `a < b`, in lexicographic order
/// from `(i, j)` on, whose partitions satisfy `rel`.
pub open spec fn first_pair_from(
    s: Seq<PartitionView>,
    rel: spec_fn(PartitionView, PartitionView) -> bool,
    i: int,
    j: int,
) -> Option<(int, int)>
    decreases s.len() - i, s.len() - j,
{
    if i < 0 || i >= s.len() {
        None
    } else if j >= s.len() {
        first_pair_from(s, rel, i + 1, i + 2)
    } else if rel(s[i], s[j]) {
        Some((i, j))
    } else {
        first_pair_from(s, rel, i, j + 1)
    }
}

/// The outcome of validating a table: the rules in order, the first broken
/// one giving the error.
pub open spec fn validate_table(s: Seq<PartitionView>) -> Result<(), ErrorView> {
    if !any(s, app_pred()) {
        Err(ErrorView::NoAppPartition)
    } else if two(s, factory_pred()) {
        Err(ErrorView::MultipleFactoryPartitions)
    } else if two(s, otadata_pred()) {
        Err(ErrorView::MultipleOtadataPartitions)
    } else if any(s, misaligned_pred()) {
        Err(ErrorView::UnalignedPartition)
    } else if let Some(i) = first_from(s, too_large_pred(), 0) {
        Err(ErrorView::PartitionTooLarge(s[i].name))
    } else if any(s, bad_otadata_pred()) {
        Err(ErrorView::InvalidOtadataPartitionSize)
    } else if let Some((i, j)) = first_pair_from(s, same_name_rel(), 0, 1) {
        Err(ErrorView::DuplicatePartitions(s[i].name))
    } else if let Some((i, j)) = first_pair_from(s, overlaps_rel(), 0, 1) {
        Err(ErrorView::OverlappingPartitions(s[i].name, s[j].name))
    } else {
        Ok(())
    }
}

/// The table is valid.
pub open spec fn table_valid(s: Seq<PartitionView>) -> bool {
    validate_table(s) is Ok
}

/// Whether the partition is `app`/`factory`.
fn is_factory_exec(p: &Partition) -> (r: bool)
    ensures
        r == is_factory(p@),
{
    p.ty == Type::App && p.subtype == SubType::App(AppType::Factory)
}

/// Whether the partition is `data`/`ota`.
fn is_otadata_exec(p: &Partition) -> (r: bool)
    ensures
        r == is_otadata(p@),
{
    p.ty == Type::Data && p.subtype == SubType::Data(DataType::Ota)
}

/// Whether some partition is of type `app`.
fn has_app(parts: &[Partition]) -> (r: bool)
    ensures
        r == any(views(parts@), app_pred()),
{
    let ghost s = views(parts@);
    let mut i: usize = 0;
    while i < parts.len()
        invariant
            s == views(parts@),
            0 <= i <= parts@.len(),
            forall|k: int| 0 <= k < i ==> !is_app(#[trigger] s[k]),
        decreases parts@.len() - i,
    {
        if parts[i].ty == Type::App {
            assert((app_pred())(s[i as int]));
            return true;
        }
        i = i + 1;
    }
    false
}

/// Whether two partitions are `app`/`factory` (`otadata` false) or
/// `data`/`ota` (`otadata` true).
fn has_two(parts: &[Partition], otadata: bool) -> (r: bool)
    ensures
        !otadata ==> r == two(views(parts@), factory_pred()),
        otadata ==> r == two(views(parts@), otadata_pred()),
{
    let ghost s = views(parts@);
    let ghost pred = if otadata {
        otadata_pred()
    } else {
        factory_pred()
    };
    let mut seen = false;
    let mut i: usize = 0;
    while i < parts.len()
        invariant
            s == views(parts@),
            pred == (if otadata {
                otadata_pred()
            } else {
                factory_pred()
            }),
            0 <= i <= parts@.len(),
            seen == (exists|k: int| 0 <= k < i && #[trigger] pred(s[k])),
            forall|a: int, b: int| 0 <= a < b < i ==> !(#[trigger] pred(s[a]) && #[trigger] pred(s[b])),
        decreases parts@.len() - i,
    {
        let hit = if otadata { is_otadata_exec(&parts[i]) } else { is_factory_exec(&parts[i]) };
        assert(hit == pred(s[i as int]));
        if hit && seen {
            return true;
        }
        if hit {
            seen = true;
        }
        i = i + 1;
    }
    false
}

/// Whether some partition's offset is not aligned as its type requires.
fn has_misaligned(parts: &[Partition]) -> (r: bool)
    ensures
        r == any(views(parts@), misaligned_pred()),
{
    let ghost s = views(parts@);
    let mut i: usize = 0;
    while i < parts.len()
        invariant
            s == views(parts@),
            0 <= i <= parts@.len(),
            forall|k: int| 0 <= k < i ==> !is_misaligned(#[trigger] s[k]),
        decreases parts@.len() - i,
    {
        let p = &parts[i];
        if (p.ty == Type::App && p.offset % 0x10000 != 0) || (p.ty == Type::Data && p.offset
            % 0x1000 != 0) {
            assert((misaligned_pred())(s[i as int]));
            return true;
        }
        i = i + 1;
    }
    false
}

/// Whether the `data`/`ota` partition has another size than 0x2000.
fn has_bad_otadata(parts: &[Partition]) -> (r: bool)
    ensures
        r == any(views(parts@), bad_otadata_pred()),
{
    let ghost s = views(parts@);
    let mut i: usize = 0;
    while i < parts.len()
        invariant
            s == views(parts@),
            0 <= i <= parts@.len(),
            forall|k: int| 0 <= k < i ==> !has_bad_otadata_size(#[trigger] s[k]),
        decreases parts@.len() - i,
    {
        if is_otadata_exec(&parts[i]) && parts[i].size != OTADATA_SIZE {
            assert((bad_otadata_pred())(s[i as int]));
            return true;
        }
        i = i + 1;
    }
    false
}

/// The first `app` partition larger than 16 MiB.
fn first_too_large(parts: &[Partition]) -> (r: Option<usize>)
    ensures
        match r {
            Some(i) => first_from(views(parts@), too_large_pred(), 0) == Some(i as int) && i
                < parts@.len(),
            None => first_from(views(parts@), too_large_pred(), 0) is None,
        },
{
    let ghost s = views(parts@);
    let ghost pred = too_large_pred();
    let mut i: usize = 0;
    while i < parts.len()
        invariant
            s == views(parts@),
            pred == (too_large_pred()),
            0 <= i <= parts@.len(),
            first_from(s, pred, 0) == first_from(s, pred, i as int),
        decreases parts@.len() - i,
    {
        if parts[i].ty == Type::App && parts[i].size > MAX_APP_PART_SIZE {
            return Some(i);
        }
        i = i + 1;
    }
    None
}

/// The first pair of partitions, in order, with the same name (`names`
/// true) or with intersecting byte ranges (`names` false).
fn first_conflict(parts: &[Partition], names: bool) -> (r: Option<(usize, usize)>)
    ensures
        ({
            let rel = if names {
                same_name_rel()
            } else {
                overlaps_rel()
            };
            match r {
                Some((i, j)) => first_pair_from(views(parts@), rel, 0, 1) == Some(
                    (i as int, j as int),
                ) && i < j < parts@.len(),
                None => first_pair_from(views(parts@), rel, 0, 1) is None,
            }
        }),
{
    let ghost s = views(parts@);
    let ghost rel = if names {
        same_name_rel()
    } else {
        overlaps_rel()
    };
    let n = parts.len();
    let mut i: usize = 0;
    while i < n
        invariant
            n == parts@.len(),
            s == views(parts@),
            rel == (if names { same_name_rel() } else { overlaps_rel() }),
            0 <= i <= n,
            first_pair_from(s, rel, 0, 1) == first_pair_from(s, rel, i as int, i + 1),
        decreases n - i,
    {
        let mut j: usize = i + 1;
        while j < n
            invariant
                n == parts@.len(),
                s == views(parts@),
                rel == (if names { same_name_rel() } else { overlaps_rel() }),
                0 <= i < j <= n,
                first_pair_from(s, rel, 0, 1) == first_pair_from(s, rel, i as int, j as int),
            decreases n - j,
        {
            let hit = if names {
                parts[i].name == parts[j].name
            } else {
                parts[i].overlaps(&parts[j])
            };
            assert(hit == rel(s[i as int], s[j as int]));
            if hit {
                return Some((i, j));
            }
            j = j + 1;
        }
        i = i + 1;
    }
    None
}

/// Checks the rules of a partition table, in this order, and reports the
/// first that is broken: an `app` partition exists; at most one partition is
/// `app`/`factory`; at most one is `data`/`ota`; `app` offsets are aligned to
/// 0x10000 and `data` offsets to 0x1000; no `app` partition exceeds 16 MiB;
/// the `data`/`ota` partition is 0x2000 bytes; no two partitions share a
/// name; no two partitions' byte ranges intersect.
pub fn validate_partitions(parts: &[Partition]) -> (r: Result<(), Error>)
    ensures
        match r {
            Ok(()) => validate_table(views(parts@)) == Ok::<(), ErrorView>(()),
            Err(e) => validate_table(views(parts@)) == Err::<(), ErrorView>(e@),
        },
{
    let ghost s = views(parts@);
    if !has_app(parts) {
        return Err(Error::NoAppPartition);
    }
    if has_two(parts, false) {
        return Err(Error::MultipleFactoryPartitions);
    }
    if has_two(parts, true) {
        return Err(Error::MultipleOtadataPartitions);
    }
    if has_misaligned(parts) {
        return Err(Error::UnalignedPartition);
    }
    if let Some(i) = first_too_large(parts) {
        return Err(Error::PartitionTooLarge(parts[i].name()));
    }
    if has_bad_otadata(parts) {
        return Err(Error::InvalidOtadataPartitionSize);
    }
    if let Some((i, j)) = first_conflict(parts, true) {
        return Err(Error::DuplicatePartitions(parts[i].name()));
    }
    if let Some((i, j)) = first_conflict(parts, false) {
        return Err(Error::OverlappingPartitions(parts[i].name(), parts[j].name()));
    }
    Ok(())
}

} // verus!
