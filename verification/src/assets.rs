use vstd::prelude::*;

pub use crate::directory::Asset;
use crate::cursor::in_source;
use crate::directories::Directory;
use crate::directory::{first_record, read_record_at, record_len, records_of, AssetRecord};
use crate::error::FormatError;

verus! {

/// What a walk over asset records found: the records up to where it
/// stopped, and the error if one stopped it.
pub struct Found {
    pub records: Seq<AssetRecord>,
    pub error: Option<FormatError>,
}

/// `record` in front of what was found after it.
pub open spec fn found_after(record: AssetRecord, rest: Found) -> Found {
    Found { records: seq![record] + rest.records, error: rest.error }
}

/// The records from `offset` up to `end`, each starting where the one
/// before it ends. The walk stops without an error at `end`, at offset 0
/// and where the source ends before the thirteen bytes of a record's
/// header; a name that the source does not hold in full or that is not
/// UTF-8 stops it with an error. The last record may reach past `end`.
pub open spec fn records_between(source: Seq<u8>, offset: int, end: int) -> Found
    decreases
            (if offset < end {
                end - offset
            } else {
                0
            }),
{
    if offset <= 0 || offset >= end || !in_source(source.len(), offset, 13) {
        Found { records: Seq::empty(), error: None }
    } else {
        match first_record(source.skip(offset)) {
            Err(e) => Found { records: Seq::empty(), error: Some(e) },
            Ok(record) => found_after(
                record,
                records_between(source, offset + record_len(source.skip(offset)), end),
            ),
        }
    }
}

/// The records of the directories from number `i` on, until an error
/// stops the walk.
pub open spec fn records_of_directories(source: Seq<u8>, directories: Seq<Directory>, i: int) -> Found
    decreases directories.len() - i,
{
    if i < 0 || i >= directories.len() {
        Found { records: Seq::empty(), error: None }
    } else {
        let here = directory_records(source, directories[i]);
        if here.error is Some {
            here
        } else {
            let rest = records_of_directories(source, directories, i + 1);
            Found { records: here.records + rest.records, error: rest.error }
        }
    }
}

/// The records of one directory. A directory whose end is no 64-bit
/// number holds none and is `Truncated`.
pub open spec fn directory_records(source: Seq<u8>, directory: Directory) -> Found {
    if directory.offset + directory.length > u64::MAX {
        Found { records: Seq::empty(), error: Some(FormatError::Truncated) }
    } else {
        records_between(
            source,
            directory.offset as int,
            directory.offset + directory.length,
        )
    }
}

/// What a walk returns for what it found.
pub open spec fn outcome(found: Found) -> Result<(), FormatError> {
    match found.error {
        None => Ok(()),
        Some(e) => Err(e),
    }
}

/// Adds the assets of all `directories` to `assets`, in the order of the
/// directories and of their tables. On an error the assets found before it
/// stay added.
pub fn find_assets(res_file: &[u8], directories: &Vec<Directory>, assets: &mut Vec<Asset>) -> (done:
    Result<(), FormatError>)
    ensures
        done == outcome(records_of_directories(res_file@, directories@, 0)),
        records_of(final(assets)@) == records_of(old(assets)@) + records_of_directories(
            res_file@,
            directories@,
            0,
        ).records,
{
    let ghost before = records_of(assets@);
    let ghost goal = records_of_directories(res_file@, directories@, 0);
    let mut i: usize = 0;
    assert(before + Seq::<AssetRecord>::empty() =~= before);
    let ghost mut sofar: Seq<AssetRecord> = Seq::empty();
    while i < directories.len()
        invariant
            i <= directories.len(),
            before == records_of(old(assets)@),
            records_of(assets@) == before + sofar,
            goal == records_of_directories(res_file@, directories@, 0),
            goal.records == sofar + records_of_directories(res_file@, directories@, i as int).records,
            goal.error == records_of_directories(res_file@, directories@, i as int).error,
        decreases directories.len() - i,
    {
        let ghost here = directory_records(res_file@, directories@[i as int]);
        let ghost rest = records_of_directories(res_file@, directories@, i + 1);
        let ghost held = records_of(assets@);
        let step = find_directory_assets(res_file, &directories[i], assets);
        proof {
            assert((before + sofar) + here.records =~= before + (sofar + here.records));
            if here.error is None {
                assert(sofar + (here.records + rest.records) =~= (sofar + here.records)
                    + rest.records);
            }
            sofar = sofar + here.records;
        }
        match step {
            Ok(_) => {},
            Err(e) => {
                return Err(e);
            },
        }
        i = i + 1;
    }
    proof {
        assert(sofar + Seq::<AssetRecord>::empty() =~= sofar);
    }
    Ok(())
}

/// Adds the assets of one directory to `assets`.
pub fn find_directory_assets(res_file: &[u8], directory: &Directory, assets: &mut Vec<Asset>) -> (done:
    Result<(), FormatError>)
    ensures
        done == outcome(directory_records(res_file@, *directory)),
        records_of(final(assets)@) == records_of(old(assets)@) + directory_records(
            res_file@,
            *directory,
        ).records,
{
    let ghost before = records_of(assets@);
    assert(before + Seq::<AssetRecord>::empty() =~= before);
    let end = match directory.offset.checked_add(directory.length) {
        Some(end) => end,
        None => return Err(FormatError::Truncated),
    };
    let ghost goal = records_between(res_file@, directory.offset as int, end as int);
    let ghost mut sofar: Seq<AssetRecord> = Seq::empty();
    let mut offset = directory.offset;
    while offset > 0 && offset < end
        invariant
            before == records_of(old(assets)@),
            res_file@.len() == res_file.len(),
            records_of(assets@) == before + sofar,
            goal == directory_records(res_file@, *directory),
            goal.records == sofar + records_between(res_file@, offset as int, end as int).records,
            goal.error == records_between(res_file@, offset as int, end as int).error,
        decreases
                (if offset < end {
                    end - offset
                } else {
                    0
                }),
    {
        let ghost here = records_between(res_file@, offset as int, end as int);
        let ghost table = res_file@.skip(offset as int);
        let ghost held = records_of(assets@);
        let result = read_asset_header(offset, res_file, assets);
        proof {
            assert(sofar + Seq::<AssetRecord>::empty() =~= sofar);
            if in_source(res_file@.len(), offset as int, 13) {
                match first_record(table) {
                    Err(e) => {
                        assert(here.error == Some(e));
                        assert(here.records =~= Seq::<AssetRecord>::empty());
                    },
                    Ok(record) => {
                        let after = offset + record_len(table);
                        let rest = records_between(res_file@, after, end as int);
                        assert(table.len() >= record_len(table));
                        assert(after <= res_file@.len());
                        assert(result == Ok::<u64, FormatError>(after as u64));
                        assert(here == found_after(record, rest));
                        assert(records_of(assets@) =~= before + (sofar + seq![record]));
                        assert(sofar + (seq![record] + rest.records) =~= (sofar + seq![record])
                            + rest.records);
                        sofar = sofar + seq![record];
                    },
                }
            } else {
                assert(here.error is None);
                assert(here.records =~= Seq::<AssetRecord>::empty());
            }
        }
        let next = match result {
            Ok(next) => next,
            Err(e) => {
                return Err(e);
            },
        };
        if next == 0 {
            return Ok(());
        }
        offset = next;
    }
    proof {
        assert(sofar + Seq::<AssetRecord>::empty() =~= sofar);
    }
    Ok(())
}

/// Reads the record that starts at `start` and adds its asset to `assets`.
/// The result is where the record ends, or 0 where the source ends before
/// the thirteen bytes of the record's header.
pub fn read_asset_header(start: u64, res_file: &[u8], assets: &mut Vec<Asset>) -> (next: Result<
    u64,
    FormatError,
>)
    ensures
        !in_source(res_file@.len(), start as int, 13) ==> next == Ok::<u64, FormatError>(0)
            && final(assets)@ == old(assets)@,
        in_source(res_file@.len(), start as int, 13) ==> match first_record(
            res_file@.skip(start as int),
        ) {
            Ok(record) => next == Ok::<u64, FormatError>(
                (start + record_len(res_file@.skip(start as int))) as u64,
            ) && final(assets)@.len() == old(assets)@.len() + 1 && records_of(final(assets)@)
                == records_of(old(assets)@).push(record),
            Err(e) => next == Err::<u64, FormatError>(e) && final(assets)@ == old(assets)@,
        },
{
    let total = res_file.len() as u64;
    if start > total || total - start < 13 {
        return Ok(0);
    }
    let name_len = res_file[(start + 12) as usize] as u64;
    assert(res_file@.skip(start as int)[12] == res_file@[start + 12]);
    let asset = read_record_at(res_file, start)?;
    let ghost held = assets@;
    assets.push(asset);
    assert(records_of(assets@) =~= records_of(held).push(asset@));
    Ok(start + 13 + name_len)
}

} // verus!
