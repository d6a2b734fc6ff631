use vstd::prelude::*;

use crate::error::FormatError;

verus! {

/// The four bytes that an archive starts with: `RES0`.
pub open spec fn res_magic() -> Seq<u8> {
    seq![0x52u8, 0x45u8, 0x53u8, 0x30u8]
}

/// Whether `source` starts with the magic of an archive.
pub open spec fn has_res_magic(source: Seq<u8>) -> bool {
    source.len() >= 4 && source.subrange(0, 4) == res_magic()
}

/// The header of an archive that was accepted.
#[derive(Clone, Copy, Debug)]
pub struct ArchiveHeader {
    /// The magic as it stands in the archive.
    pub magic: [u8; 4],
}

/// Accepts an archive by its first four bytes.
pub fn check_res_file_header(res_file: &[u8]) -> (checked: Result<(), FormatError>)
    ensures
        has_res_magic(res_file@) ==> checked is Ok,
        !has_res_magic(res_file@) ==> checked == Err::<(), FormatError>(FormatError::BadMagic),
{
    if res_file.len() >= 4 && res_file[0] == 0x52 && res_file[1] == 0x45 && res_file[2] == 0x53
        && res_file[3] == 0x30 {
        assert(res_file@.subrange(0, 4) =~= res_magic());
        Ok(())
    } else {
        assert(res_file@.len() >= 4 ==> res_file@.subrange(0, 4)[0] == res_file@[0]
            && res_file@.subrange(0, 4)[1] == res_file@[1] && res_file@.subrange(0, 4)[2]
            == res_file@[2] && res_file@.subrange(0, 4)[3] == res_file@[3]);
        Err(FormatError::BadMagic)
    }
}

/// Opens an archive that is in memory: it is usable only if it starts
/// with the magic.
pub fn open_res_file(res_file: &[u8]) -> (header: Result<ArchiveHeader, FormatError>)
    ensures
        has_res_magic(res_file@) ==> (header matches Ok(h) && h.magic@ == res_magic()),
        !has_res_magic(res_file@) ==> (header matches Err(e) && e == FormatError::BadMagic),
{
    check_res_file_header(res_file)?;
    let magic = [res_file[0], res_file[1], res_file[2], res_file[3]];
    assert(magic@ =~= res_file@.subrange(0, 4));
    Ok(ArchiveHeader { magic })
}

} // verus!
