use vstd::prelude::*;
use vstd::slice::{slice_subrange, slice_to_vec};
use vstd::utf8::{decode_utf8, decode_utf8_encode_utf8, encode_utf8, valid_utf8};

use crate::cursor::{in_source, read_span, read_u32_at, u32_at};
use crate::error::FormatError;
use crate::utils::str_from_utf8;

verus! {

/// Where the directory header starts in an archive.
pub const HEADER_OFFSET: u64 = 6;

/// The bytes of a record before its name: offset, length, type and the
/// length of the name.
pub const RECORD_HEADER_LEN: usize = 13;

/// One named, typed payload of an archive.
#[derive(Clone, Debug)]
pub struct Asset {
    /// Where the payload starts in the archive.
    pub offset: u64,
    /// How many bytes the payload takes.
    pub length: u64,
    /// The tag that selects the decoder.
    pub type_: u32,
    /// The name of the asset inside the archive.
    pub name: String,
}

/// What an `Asset` holds, with its name as a sequence of characters.
pub struct AssetRecord {
    pub offset: u64,
    pub length: u64,
    pub type_: u32,
    pub name: Seq<char>,
}

impl View for Asset {
    type V = AssetRecord;

    open spec fn view(&self) -> AssetRecord {
        AssetRecord {
            offset: self.offset,
            length: self.length,
            type_: self.type_,
            name: self.name@,
        }
    }
}

/// The directory of an archive: where its asset table lies, and the assets
/// that the table lists.
#[derive(Debug)]
pub struct Directory {
    pub offset: u64,
    pub length: u64,
    pub assets: Vec<Asset>,
}

/// What a `Directory` holds.
pub struct DirectoryRecord {
    pub offset: u64,
    pub length: u64,
    pub assets: Seq<AssetRecord>,
}

/// The records that a sequence of assets stands for.
pub open spec fn records_of(assets: Seq<Asset>) -> Seq<AssetRecord> {
    Seq::new(assets.len(), |i: int| assets[i]@)
}

impl View for Directory {
    type V = DirectoryRecord;

    open spec fn view(&self) -> DirectoryRecord {
        DirectoryRecord {
            offset: self.offset,
            length: self.length,
            assets: records_of(self.assets@),
        }
    }
}

/// The bytes that the first record of `table` takes.
pub open spec fn record_len(table: Seq<u8>) -> int {
    RECORD_HEADER_LEN + table[12]
}

/// The bytes of the name of the first record of `table`.
pub open spec fn record_name(table: Seq<u8>) -> Seq<u8> {
    table.subrange(RECORD_HEADER_LEN as int, record_len(table))
}

/// The first record of `table`: three 32-bit fields, the length of the
/// name in one byte, then the name in UTF-8. A record that reaches past
/// the table is `Truncated`; a name that is not UTF-8 is `Corrupt`.
pub open spec fn first_record(table: Seq<u8>) -> Result<AssetRecord, FormatError> {
    if table.len() < RECORD_HEADER_LEN || table.len() < record_len(table) {
        Err(FormatError::Truncated)
    } else if !valid_utf8(record_name(table)) {
        Err(FormatError::Corrupt)
    } else {
        Ok(
            AssetRecord {
                offset: u32_at(table, 0) as u64,
                length: u32_at(table, 4) as u64,
                type_: u32_at(table, 8) as u32,
                name: decode_utf8(record_name(table)),
            },
        )
    }
}

/// The records of `table`, one after the other until the table is used up.
pub open spec fn all_records(table: Seq<u8>) -> Result<Seq<AssetRecord>, FormatError>
    decreases table.len(),
{
    if table.len() == 0 {
        Ok(Seq::empty())
    } else {
        match first_record(table) {
            Err(e) => Err(e),
            Ok(record) => with_first(record, all_records(table.skip(record_len(table)))),
        }
    }
}

/// `record` in front of the records that follow it, if those could be read.
pub open spec fn with_first(
    record: AssetRecord,
    following: Result<Seq<AssetRecord>, FormatError>,
) -> Result<Seq<AssetRecord>, FormatError> {
    match following {
        Err(e) => Err(e),
        Ok(records) => Ok(seq![record] + records),
    }
}

/// `done` in front of the records that follow them, if those could be read.
pub open spec fn with_done(
    done: Seq<AssetRecord>,
    following: Result<Seq<AssetRecord>, FormatError>,
) -> Result<Seq<AssetRecord>, FormatError> {
    match following {
        Err(e) => Err(e),
        Ok(records) => Ok(done + records),
    }
}

/// The bytes that `records` take in an asset table.
pub open spec fn encoded_len(records: Seq<AssetRecord>) -> int
    decreases records.len(),
{
    if records.len() == 0 {
        0
    } else {
        RECORD_HEADER_LEN + encode_utf8(records[0].name).len() + encoded_len(records.skip(1))
    }
}

/// A table that can be read is used up exactly: its records take as many
/// bytes as the table has.
pub proof fn lemma_table_consumed(table: Seq<u8>)
    requires
        all_records(table) is Ok,
    ensures
        encoded_len(all_records(table)->Ok_0) == table.len(),
    decreases table.len(),
{
    if table.len() != 0 {
        let record = first_record(table)->Ok_0;
        let rest = table.skip(record_len(table));
        lemma_table_consumed(rest);
        let following = all_records(rest)->Ok_0;
        let records = seq![record] + following;
        assert(records.skip(1) =~= following);
        decode_utf8_encode_utf8(record_name(table));
    }
}

/// The asset table of `length` bytes at `offset` in `source`.
pub open spec fn asset_table(source: Seq<u8>, offset: u64, length: u64) -> Result<
    Seq<AssetRecord>,
    FormatError,
> {
    if !in_source(source.len(), offset as int, length as int) {
        Err(FormatError::Truncated)
    } else {
        all_records(source.subrange(offset as int, offset + length))
    }
}

/// The directory of the archive `source`: two 32-bit fields at byte 6 give
/// offset and length of the asset table.
pub open spec fn directory_of(source: Seq<u8>) -> Result<DirectoryRecord, FormatError> {
    if source.len() < HEADER_OFFSET + 8 {
        Err(FormatError::Truncated)
    } else {
        let offset = u32_at(source, HEADER_OFFSET as int) as u64;
        let length = u32_at(source, HEADER_OFFSET + 4) as u64;
        match asset_table(source, offset, length) {
            Err(e) => Err(e),
            Ok(assets) => Ok(DirectoryRecord { offset, length, assets }),
        }
    }
}

/// Reads the directory header of an archive and the asset table that it
/// points to.
pub fn get_directory(res_file: &[u8]) -> (directory: Result<Directory, FormatError>)
    ensures
        match directory_of(res_file@) {
            Ok(record) => directory matches Ok(d) && d@ == record,
            Err(e) => directory matches Err(x) && x == e,
        },
{
    let offset = read_u32_at(res_file, HEADER_OFFSET)? as u64;
    let length = read_u32_at(res_file, HEADER_OFFSET + 4)? as u64;
    let assets = get_directory_assets(res_file, offset, length)?;
    Ok(Directory { offset, length, assets })
}

/// Reads the asset table of `length` bytes at `offset`. All records are
/// decoded before any is returned, and together they take exactly `length`
/// bytes.
pub fn get_directory_assets(res_file: &[u8], offset: u64, length: u64) -> (assets: Result<
    Vec<Asset>,
    FormatError,
>)
    ensures
        match asset_table(res_file@, offset, length) {
            Ok(records) => assets matches Ok(list) && records_of(list@) == records,
            Err(e) => assets matches Err(x) && x == e,
        },
        assets matches Ok(list) ==> encoded_len(records_of(list@)) == length,
{
    let span = read_span(res_file, offset, length)?;
    let mut headers = slice_to_vec(span);
    let ghost table = headers@;
    let mut assets: Vec<Asset> = Vec::new();
    assert(with_done(records_of(assets@), all_records(headers@)) == all_records(table)) by {
        match all_records(table) {
            Ok(records) => assert(records_of(assets@) + records =~= records),
            Err(_) => {},
        }
    }
    while !headers.is_empty()
        invariant
            asset_table(res_file@, offset, length) == all_records(table),
            with_done(records_of(assets@), all_records(headers@)) == all_records(table),
        decreases headers@.len(),
    {
        let ghost before = headers@;
        let ghost done = records_of(assets@);
        let asset = match get_asset_from_headers(&mut headers) {
            Ok(asset) => asset,
            Err(e) => {
                assert(all_records(before) == Err::<Seq<AssetRecord>, FormatError>(e));
                return Err(e);
            },
        };
        assets.push(asset);
        proof {
            let record = first_record(before)->Ok_0;
            assert(records_of(assets@) =~= done + seq![record]);
            match all_records(headers@) {
                Ok(records) => assert(done + (seq![record] + records) =~= (done + seq![record])
                    + records),
                Err(_) => {},
            }
        }
    }
    proof {
        assert(records_of(assets@) + Seq::<AssetRecord>::empty() =~= records_of(assets@));
        lemma_table_consumed(table);
    }
    Ok(assets)
}

/// Takes the first record off the front of `headers`. Where the record
/// reaches past the end, `headers` stays as it was; where only its name is
/// not UTF-8, the record is taken off all the same.
pub fn get_asset_from_headers(headers: &mut Vec<u8>) -> (asset: Result<Asset, FormatError>)
    ensures
        match first_record(old(headers)@) {
            Ok(record) => asset matches Ok(a) && a@ == record,
            Err(e) => asset matches Err(x) && x == e,
        },
        first_record(old(headers)@) == Err::<AssetRecord, FormatError>(FormatError::Truncated)
            ==> final(headers)@ == old(headers)@,
        first_record(old(headers)@) != Err::<AssetRecord, FormatError>(FormatError::Truncated)
            ==> final(headers)@ == old(headers)@.skip(record_len(old(headers)@)),
{
    let total = headers.len();
    if total < RECORD_HEADER_LEN {
        return Err(FormatError::Truncated);
    }
    let name_len = headers[12] as usize;
    if total - RECORD_HEADER_LEN < name_len {
        return Err(FormatError::Truncated);
    }
    let rest = headers.split_off(RECORD_HEADER_LEN + name_len);
    assert(headers@.subrange(RECORD_HEADER_LEN as int, RECORD_HEADER_LEN + name_len)
        =~= record_name(old(headers)@));
    assert(headers@.subrange(0, 4) =~= old(headers)@.subrange(0, 4));
    assert(headers@.subrange(4, 8) =~= old(headers)@.subrange(4, 8));
    assert(headers@.subrange(8, 12) =~= old(headers)@.subrange(8, 12));
    assert(rest@ =~= old(headers)@.skip(record_len(old(headers)@)));
    let offset = read_u32_at(headers.as_slice(), 0);
    let length = read_u32_at(headers.as_slice(), 4);
    let type_ = read_u32_at(headers.as_slice(), 8);
    let name = match str_from_utf8(
        slice_subrange(headers.as_slice(), RECORD_HEADER_LEN, RECORD_HEADER_LEN + name_len),
    ) {
        Some(text) => Some(text.to_owned()),
        None => None,
    };
    *headers = rest;
    match (offset, length, type_, name) {
        (Ok(offset), Ok(length), Ok(type_), Some(name)) => Ok(
            Asset { offset: offset as u64, length: length as u64, type_, name },
        ),
        _ => Err(FormatError::Corrupt),
    }
}

/// Reads the record that starts at `start` in `source`, the rest of the
/// source taken as the table. A start past the end of the source is
/// `Truncated`.
pub fn read_record_at(source: &[u8], start: u64) -> (asset: Result<Asset, FormatError>)
    ensures
        start <= source@.len() ==> match first_record(source@.skip(start as int)) {
            Ok(record) => asset matches Ok(a) && a@ == record,
            Err(e) => asset matches Err(x) && x == e,
        },
        start > source@.len() ==> (asset matches Err(x) && x == FormatError::Truncated),
{
    let ghost table = source@.skip(start as int);
    let total = source.len() as u64;
    if start > total || total - start < RECORD_HEADER_LEN as u64 {
        return Err(FormatError::Truncated);
    }
    let name_len = source[(start + 12) as usize] as u64;
    assert(table[12] == source@[start + 12]);
    if total - start - (RECORD_HEADER_LEN as u64) < name_len {
        return Err(FormatError::Truncated);
    }
    assert(source@.subrange(start as int, start + 4) =~= table.subrange(0, 4));
    assert(source@.subrange(start + 4, start + 8) =~= table.subrange(4, 8));
    assert(source@.subrange(start + 8, start + 12) =~= table.subrange(8, 12));
    assert(source@.subrange(start + 13, start + 13 + name_len) =~= record_name(table));
    let offset = read_u32_at(source, start)?;
    let length = read_u32_at(source, start + 4)?;
    let type_ = read_u32_at(source, start + 8)?;
    let name_bytes = read_span(source, start + 13, name_len)?;
    match str_from_utf8(name_bytes) {
        Some(text) => Ok(
            Asset { offset: offset as u64, length: length as u64, type_, name: text.to_owned() },
        ),
        None => Err(FormatError::Corrupt),
    }
}

} // verus!
