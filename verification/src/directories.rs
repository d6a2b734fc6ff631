use vstd::prelude::*;

use crate::cursor::{in_source, read_span, read_u32_at, u32_at};
use crate::error::FormatError;

verus! {

/// Where an asset table lies in an archive.
#[derive(Clone, Copy, Debug, PartialEq, Eq, Structural)]
pub struct Directory {
    pub offset: u64,
    pub length: u64,
}

/// The directory whose header of two 32-bit numbers, offset and length,
/// starts at `position`.
pub open spec fn directory_at(source: Seq<u8>, position: int) -> Directory {
    Directory {
        offset: u32_at(source, position) as u64,
        length: u32_at(source, position + 4) as u64,
    }
}

/// Reads the directory header at `position` and adds the directory to
/// `directories`. The result is where the directory's table ends, which is
/// where a next header would start. A source that ends before the header
/// is `Truncated`, and `directories` stays as it was.
pub fn find_directories(res_file: &[u8], position: u64, directories: &mut Vec<Directory>) -> (next:
    Result<u64, FormatError>)
    ensures
        in_source(res_file@.len(), position as int, 8) ==> next == Ok::<u64, FormatError>(
            (directory_at(res_file@, position as int).offset + directory_at(
                res_file@,
                position as int,
            ).length) as u64,
        ) && final(directories)@ == old(directories)@.push(
            directory_at(res_file@, position as int),
        ),
        !in_source(res_file@.len(), position as int, 8) ==> next == Err::<u64, FormatError>(
            FormatError::Truncated,
        ) && final(directories)@ == old(directories)@,
{
    read_directory_header(res_file, position, directories)
}

/// Reads one directory header, as `find_directories` does.
pub fn read_directory_header(
    res_file: &[u8],
    position: u64,
    directories: &mut Vec<Directory>,
) -> (next: Result<u64, FormatError>)
    ensures
        in_source(res_file@.len(), position as int, 8) ==> next == Ok::<u64, FormatError>(
            (directory_at(res_file@, position as int).offset + directory_at(
                res_file@,
                position as int,
            ).length) as u64,
        ) && final(directories)@ == old(directories)@.push(
            directory_at(res_file@, position as int),
        ),
        !in_source(res_file@.len(), position as int, 8) ==> next == Err::<u64, FormatError>(
            FormatError::Truncated,
        ) && final(directories)@ == old(directories)@,
{
    read_span(res_file, position, 8)?;
    assert(res_file@.len() == res_file.len());
    let offset = read_u32_at(res_file, position)? as u64;
    let length = read_u32_at(res_file, position + 4)? as u64;
    directories.push(Directory { offset, length });
    Ok(offset + length)
}

} // verus!
