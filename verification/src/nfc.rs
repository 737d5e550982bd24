//! Reading and erasing the record on a tag: what the first pages of the tag say of the
//! record behind them.

use vstd::prelude::*;

verus! {

/// What can go wrong with the record on a tag.
#[derive(Clone, Copy, Debug, PartialEq, Eq, Structural)]
pub enum Error {
    /// The reader failed.
    Pn532ExtError,
    /// The record is none.
    NdefReadError,
    /// The tag holds no record at all.
    NotNdefFormatted,
}

/// The page where the record begins.
pub const RECORD_PAGE: u8 = 4;

/// The smallest multiple of four that is not below `n`.
pub open spec fn aligned(n: int) -> int {
    (n + 3) / 4 * 4
}

/// The bytes of the record, with its head, by pages 3 and 4 of the tag. Page 3 says
/// whether the tag can hold a record; page 4 begins with a mark and the length, which
/// takes one byte, or three where the first is all ones.
pub open spec fn record_size(page34: Seq<u8>) -> Result<Option<int>, Error> {
    if page34[0] != 0xe1 || page34[4] != 0x03 {
        Err(Error::NotNdefFormatted)
    } else if page34[5] == 0 {
        Ok(None)
    } else if page34[5] == 0xff {
        Ok(Some(aligned(page34[6] * 256 + page34[7] + 5)))
    } else {
        Ok(Some(aligned(page34[5] + 3)))
    }
}

/// How many bytes are to be read for the record, nothing where it is empty.
pub fn read_ndef_record(page34: &[u8]) -> (r: Result<Option<usize>, Error>)
    requires
        page34@.len() == 8,
    ensures
        match record_size(page34@) {
            Err(e) => r == Err::<Option<usize>, Error>(e),
            Ok(None) => r == Ok::<Option<usize>, Error>(None),
            Ok(Some(n)) => r == Ok::<Option<usize>, Error>(Some(n as usize)) && n <= 65544,
        },
{
    if page34[0] != 0xe1 || page34[4] != 0x03 {
        return Err(Error::NotNdefFormatted);
    }
    if page34[5] == 0 {
        return Ok(None);
    }
    let size: usize = if page34[5] == 0xff {
        page34[6] as usize * 256 + page34[7] as usize + 5
    } else {
        page34[5] as usize + 3
    };
    Ok(Some((size + 3) / 4 * 4))
}

/// What is written on page 4 to erase the record: an empty one, and the end.
pub fn erase_ndef_tag() -> (r: Vec<u8>)
    ensures
        r@ == seq![0x03u8, 0x00, 0xfe, 0x00],
{
    let mut r: Vec<u8> = Vec::new();
    r.push(0x03);
    r.push(0x00);
    r.push(0xfe);
    r.push(0x00);
    proof {
        assert(r@ =~= seq![0x03u8, 0x00, 0xfe, 0x00]);
    }
    r
}

/// A tag that was erased holds an empty record.
pub proof fn erased_tag_is_empty(page3: Seq<u8>)
    requires
        page3.len() == 4,
        page3[0] == 0xe1,
    ensures
        record_size(page3 + seq![0x03u8, 0x00, 0xfe, 0x00]) == Ok::<Option<int>, Error>(None),
{
    let pages = page3 + seq![0x03u8, 0x00, 0xfe, 0x00];
    assert(pages[0] == page3[0]);
    assert(pages[4] == 0x03u8);
    assert(pages[5] == 0x00u8);
}

/// The size is a whole number of pages, and covers the head and the record.
pub proof fn record_fits_its_pages(page34: Seq<u8>)
    requires
        record_size(page34) matches Ok(Some(_)),
    ensures
        record_size(page34)->Ok_0->0 % 4 == 0,
        page34[5] == 0xff ==> page34[6] * 256 + page34[7] + 5 <= record_size(page34)->Ok_0->0 < page34[6] * 256
            + page34[7] + 9,
        page34[5] != 0xff ==> page34[5] + 3 <= record_size(page34)->Ok_0->0 < page34[5] + 7,
{
}

/// A tag holds a record where page 3 begins with the mark of a tag for records and page 4
/// with the mark of a record; a length of zero is an empty one.
pub proof fn marks_tell_of_a_record(page34: Seq<u8>)
    requires
        page34.len() == 8,
    ensures
        record_size(page34) is Err <==> !(page34[0] == 0xe1 && page34[4] == 0x03),
        record_size(page34) is Err ==> record_size(page34)->Err_0 == Error::NotNdefFormatted,
        page34[0] == 0xe1 && page34[4] == 0x03 ==> (record_size(page34)->Ok_0 is None <==> page34[5] == 0),
{
}

} // verus!
