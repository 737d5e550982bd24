//! A record file: records of one width, one after another, each holding a row of
//! comma separated values or nothing. What is read, overwritten and appended is
//! decided here, on bytes; the application does the file access and turns rows
//! into records.

use crate::numbers::{digits_of, digits_read_back, is_digit, number_reads_back, parse_unsigned, parsed, write_digits};
use crate::text::{
    append, bytes_between, chars_of, cut, find_from, joined, lemma_lists_marked, lemma_position_is, line_feed_ends_a_line,
    lines, lines_of, lists_marked, position, text_of, trim, trim_end, trim_start, trimmed, views, white_space, without_cr,
};
use crate::text_map::TextMap;
use vstd::prelude::*;

verus! {

/// What can go wrong with a record file.
#[derive(Clone, Copy, Debug, PartialEq, Eq, Structural)]
pub enum CsvDbError {
    /// The file cannot be read or written.
    Store,
    /// The record width cannot be read.
    Metadata,
    /// A row is not a record.
    Deserialize,
    /// A record does not fit into the record width.
    Serialize,
}

/// What is kept in a record file: it has a key, and can be compared.
pub trait CsvDbId: Sized {
    /// The key.
    spec fn key(&self) -> Seq<char>;

    /// Equality of records.
    spec fn equals(&self, other: &Self) -> bool;

    /// The key.
    fn id(&self) -> (r: &String)
        ensures
            r@ == self.key(),
    ;

    /// Whether two records are equal.
    fn same_as(&self, other: &Self) -> (r: bool)
        ensures
            r == self.equals(other),
    ;
}

/// A record and where it stands in the file.
#[derive(Debug)]
pub struct CsvRecordInfo<T> {
    pub data: T,
    /// The length of the row, with the line feed that ends it.
    pub length: usize,
    pub offset: u32,
}

/// The records of a record file.
pub struct CsvDb<T> {
    pub db_file_name: String,
    pub dbm_file_name: String,
    pub record_width: usize,
    pub records: TextMap<CsvRecordInfo<T>>,
}

/// What inserting a record asks of the file.
#[derive(Debug, PartialEq, Eq)]
pub enum InsertPlan {
    /// The file holds the record already.
    Unchanged,
    /// Write the bytes over the record at `offset`.
    Overwrite { offset: u32, row: Vec<u8> },
    /// Write the bytes at the end.
    Append { row: Vec<u8> },
}

/// What inserting a record leads to.
pub ghost enum InsertStep {
    /// The file holds the record already.
    Unchanged,
    /// The record does not fit.
    Refused,
    /// The bytes are written, over the record at an offset or at the end.
    Write { over: Option<u32>, bytes: Seq<u8> },
}

/// What a plan to insert a record leads to.
pub open spec fn insert_step_of(r: Result<InsertPlan, CsvDbError>) -> InsertStep {
    match r {
        Ok(InsertPlan::Unchanged) => InsertStep::Unchanged,
        Ok(InsertPlan::Overwrite { offset, row }) => InsertStep::Write { over: Some(offset), bytes: row@ },
        Ok(InsertPlan::Append { row }) => InsertStep::Write { over: None, bytes: row@ },
        Err(_) => InsertStep::Refused,
    }
}

/// What deleting a record asks of the file: write the bytes over the record at `offset`.
#[derive(Debug, PartialEq, Eq)]
pub struct DeletePlan {
    pub offset: u32,
    pub row: Vec<u8>,
}

/// The text of the file that describes a record file.
pub open spec fn meta_text(version: Seq<char>, record_width: nat) -> Seq<char> {
    "version: "@ + version + "\nrecord_width:"@ + digits_of(record_width)
}

/// What a line of the description says: what follows its first colon.
pub open spec fn meta_value(text: Seq<char>, line: int) -> Option<Seq<char>> {
    let all = lines_of(text);
    if all.len() <= line || position(all[line], ':') >= all[line].len() {
        None
    } else {
        Some(trimmed(all[line].skip(position(all[line], ':') + 1)))
    }
}

/// The version in the description of a record file, which its first line says. Nothing
/// where it says nothing.
pub open spec fn meta_version(text: Seq<char>) -> Seq<char> {
    match meta_value(text, 0) {
        Some(version) => version,
        None => seq![],
    }
}

/// The record width in the description of a record file, which its second line says.
/// `Ok(None)` where it says nothing.
pub open spec fn meta_width(text: Seq<char>) -> Result<Option<usize>, CsvDbError> {
    match meta_value(text, 1) {
        None => Ok(None),
        Some(value) => match parsed(value, 0, usize::MAX as int) {
            Some(n) => Ok(Some(n as usize)),
            None => Err(CsvDbError::Metadata),
        },
    }
}

fn read_meta_value(text: &str, line: usize) -> (r: Option<Vec<char>>)
    ensures
        match r {
            Some(value) => meta_value(text@, line as int) == Some(value@),
            None => meta_value(text@, line as int) is None,
        },
{
    let chars = chars_of(text);
    let all = lines(chars.as_slice());
    if all.len() <= line {
        return None;
    }
    let said = &all[line];
    proof {
        assert(views(all@)[line as int] == said@);
        assert(said@.skip(0) =~= said@);
    }
    let at = find_from(said.as_slice(), ':', 0);
    if at == said.len() {
        return None;
    }
    let right = cut(said.as_slice(), at + 1, said.len());
    proof {
        assert(right@ =~= said@.skip(at + 1));
    }
    Some(trim(right.as_slice()))
}

/// Reads the version in the description of a record file.
pub fn read_meta_version(text: &str) -> (r: String)
    ensures
        r@ == meta_version(text@),
{
    match read_meta_value(text, 0) {
        Some(version) => text_of(version.as_slice()),
        None => String::new(),
    }
}

/// Reads the record width in the description of a record file.
pub fn read_meta_width(text: &str) -> (r: Result<Option<usize>, CsvDbError>)
    ensures
        r == meta_width(text@),
{
    match read_meta_value(text, 1) {
        None => Ok(None),
        Some(digits) => match parse_unsigned(digits.as_slice(), usize::MAX as u64) {
            Some(n) => Ok(Some(n as usize)),
            None => Err(CsvDbError::Metadata),
        },
    }
}

/// Writes the description of a record file.
pub fn write_meta(version: &str, record_width: usize) -> (r: String)
    ensures
        r@ == meta_text(version@, record_width as nat),
{
    let mut chars = chars_of("version: ");
    let version_chars = chars_of(version);
    let name = chars_of("\nrecord_width:");
    let digits = write_digits(record_width as u64);
    append(&mut chars, version_chars.as_slice());
    append(&mut chars, name.as_slice());
    append(&mut chars, digits.as_slice());
    text_of(chars.as_slice())
}

/// A record that holds nothing: dashes and a line feed.
pub open spec fn empty_record(width: nat) -> Seq<u8> {
    Seq::new(width, |i: int| if i == width - 1 { 10u8 } else { 45u8 })
}

/// Whether a record holds nothing.
pub open spec fn holds_nothing(s: Seq<u8>) -> bool {
    s.len() > 1 && s == empty_record(s.len())
}

/// A record that holds a row: the row, filled up as an empty record is.
pub open spec fn row_record(row: Seq<u8>, width: nat) -> Seq<u8> {
    row + empty_record(width).skip(row.len() as int)
}

/// Whether a record holds nothing.
pub fn is_empty_record(s: &[u8]) -> (r: bool)
    ensures
        r == holds_nothing(s@),
{
    if s.len() <= 1 || s[s.len() - 1] != 10 {
        return false;
    }
    let mut i: usize = 0;
    while i < s.len() - 1
        invariant
            1 < s@.len(),
            s@.len() == s.len(),
            i <= s@.len() - 1,
            forall|j: int| 0 <= j < i ==> s@[j] == 45,
        decreases s@.len() - i,
    {
        if s[i] != 45 {
            proof {
                assert(empty_record(s@.len())[i as int] == 45);
            }
            return false;
        }
        i += 1;
    }
    proof {
        assert(s@ =~= empty_record(s@.len()));
    }
    true
}

/// The `i`-th record of a file.
pub open spec fn record_at(file: Seq<u8>, width: int, i: int) -> Seq<u8> {
    file.subrange(i * width, i * width + width)
}

/// The positions of the records that hold something, in the order of the file, among
/// the first `n` records.
pub open spec fn occupied(file: Seq<u8>, width: int, n: int) -> Seq<u32>
    decreases n,
{
    if n <= 0 {
        seq![]
    } else if holds_nothing(record_at(file, width, n - 1)) {
        occupied(file, width, n - 1)
    } else {
        occupied(file, width, n - 1).push(((n - 1) * width) as u32)
    }
}

/// The records, each under its key, after the first `n` of the records read from a
/// file have been entered in their order: of two with one key the later stays.
pub open spec fn entered<T: CsvDbId>(
    before: Map<Seq<char>, CsvRecordInfo<T>>,
    offsets: Seq<u32>,
    decoded: Seq<(T, usize)>,
    n: int,
) -> Map<Seq<char>, CsvRecordInfo<T>>
    decreases n,
{
    if n <= 0 {
        before
    } else {
        let (data, length) = decoded[n - 1];
        entered(before, offsets, decoded, n - 1).insert(
            data.key(),
            CsvRecordInfo { data, length, offset: offsets[n - 1] },
        )
    }
}

impl<T: CsvDbId> CsvDb<T> {
    /// Every record stands under its key.
    pub open spec fn wf(self) -> bool {
        &&& self.records.wf()
        &&& forall|k: Seq<char>| #[trigger] self.records@.contains_key(k) ==> self.records@[k].data.key() == k
    }

    /// Everything but the records.
    pub open spec fn same_file(self, o: CsvDb<T>) -> bool {
        &&& self.db_file_name == o.db_file_name
        &&& self.dbm_file_name == o.dbm_file_name
        &&& self.record_width == o.record_width
    }

    /// Opens a record file by what its description says. Where there is no description
    /// yet, it is to be written as returned, the file is to be created, and the
    /// records have the width `min_record_width`.
    pub fn new(db_name: &str, dbm_text: &str, min_record_width: usize) -> (r: Result<(Self, Option<String>), CsvDbError>)
        ensures
            r is Err <==> dbm_text@.len() > 0 && meta_width(dbm_text@) is Err,
            r is Err ==> r->Err_0 == CsvDbError::Metadata,
            r is Ok ==> {
                let (db, description) = r->Ok_0;
                &&& db.wf()
                &&& db.db_file_name@ == db_name@ + ".db"@
                &&& db.dbm_file_name@ == db_name@ + ".dbm"@
                &&& db.records@ == Map::<Seq<char>, CsvRecordInfo<T>>::empty()
                &&& db.records.order().len() == 0
                &&& dbm_text@.len() == 0 ==> {
                    &&& db.record_width == min_record_width
                    &&& description is Some
                    &&& description->0@ == meta_text("1"@, min_record_width as nat)
                }
                &&& dbm_text@.len() > 0 ==> {
                    &&& description is None
                    &&& db.record_width == (match meta_width(dbm_text@)->Ok_0 {
                        Some(n) => n,
                        None => min_record_width,
                    })
                }
            },
    {
        let db_file_name = joined(db_name, ".db");
        let dbm_file_name = joined(db_name, ".dbm");
        let chars = chars_of(dbm_text);
        if chars.len() == 0 {
            let db = CsvDb {
                db_file_name,
                dbm_file_name,
                record_width: min_record_width,
                records: TextMap::new(),
            };
            return Ok((db, Some(write_meta("1", min_record_width))));
        }
        match read_meta_width(dbm_text) {
            Ok(width) => {
                let record_width = match width {
                    Some(n) => n,
                    None => min_record_width,
                };
                Ok((CsvDb { db_file_name, dbm_file_name, record_width, records: TextMap::new() }, None))
            },
            Err(e) => Err(e),
        }
    }

    /// Finds the records of the file that hold something.
    pub fn frames(&self, db_bytes: &[u8]) -> (r: Vec<u32>)
        requires
            db_bytes@.len() > 0 ==> self.record_width >= 1 && db_bytes@.len() % self.record_width as nat == 0,
            db_bytes@.len() <= u32::MAX,
        ensures
            db_bytes@.len() == 0 ==> r@.len() == 0,
            db_bytes@.len() > 0 ==> r@ == occupied(
                db_bytes@,
                self.record_width as int,
                db_bytes@.len() as int / self.record_width as int,
            ),
            forall|i: int|
                0 <= i < r@.len() ==> (#[trigger] r@[i]) + self.record_width <= db_bytes@.len(),
    {
        let mut r: Vec<u32> = Vec::new();
        if db_bytes.len() == 0 {
            return r;
        }
        let width = self.record_width;
        let count: usize = db_bytes.len() / width;
        let mut n: usize = 0;
        let mut nread: usize = 0;
        proof {
            vstd::arithmetic::div_mod::lemma_fundamental_div_mod(db_bytes@.len() as int, width as int);
            assert(width * count == db_bytes@.len());
            assert(0 * width == 0) by (nonlinear_arith);
        }
        while n < count
            invariant
                width >= 1,
                width == self.record_width,
                width * count == db_bytes@.len(),
                db_bytes@.len() <= u32::MAX,
                db_bytes@.len() == db_bytes.len(),
                n <= count,
                nread == n * width,
                r@ == occupied(db_bytes@, width as int, n as int),
                forall|i: int| 0 <= i < r@.len() ==> (#[trigger] r@[i]) + width <= db_bytes@.len(),
            decreases count - n,
        {
            proof {
                assert(n * width + width <= width * count) by (nonlinear_arith)
                    requires
                        n + 1 <= count,
                        width >= 1,
                ;
                assert(n * width + width == (n + 1) * width) by (nonlinear_arith);
            }
            let record = bytes_between(db_bytes, nread, nread + width);
            proof {
                assert(record@ == record_at(db_bytes@, width as int, n as int));
            }
            if !is_empty_record(record.as_slice()) {
                r.push(nread as u32);
            }
            n += 1;
            nread += width;
        }
        r
    }

    /// Enters the records that were read from the file at the positions `offsets`.
    pub fn load(&mut self, offsets: &Vec<u32>, decoded: Vec<(T, usize)>)
        requires
            old(self).wf(),
            offsets@.len() == decoded@.len(),
        ensures
            final(self).wf(),
            final(self).same_file(*old(self)),
            final(self).records@ == entered(old(self).records@, offsets@, decoded@, decoded@.len() as int),
    {
        let ghost all = decoded@;
        let mut decoded = decoded;
        let mut reversed: Vec<(T, usize)> = Vec::new();
        while decoded.len() > 0
            invariant
                decoded@.len() + reversed@.len() == all.len(),
                decoded@ == all.take(decoded@.len() as int),
                reversed@ =~= Seq::new(reversed@.len(), |i: int| all[all.len() - 1 - i]),
            decreases decoded@.len(),
        {
            let ghost n = decoded@.len();
            if let Some(last) = decoded.pop() {
                proof {
                    assert(last == all[n - 1]);
                }
                reversed.push(last);
                proof {
                    assert(decoded@ =~= all.take(n - 1));
                    assert(reversed@ =~= Seq::new(reversed@.len(), |i: int| all[all.len() - 1 - i]));
                }
            }
        }
        let mut n: usize = 0;
        while n < offsets.len()
            invariant
                n <= offsets@.len(),
                offsets@.len() == all.len(),
                n + reversed@.len() == all.len(),
                reversed@ =~= Seq::new(reversed@.len(), |i: int| all[all.len() - 1 - i]),
                self.wf(),
                self.same_file(*old(self)),
                self.records@ == entered(old(self).records@, offsets@, all, n as int),
            decreases offsets@.len() - n,
        {
            let ghost left = reversed@;
            if let Some((data, length)) = reversed.pop() {
                proof {
                    assert(left.last() == all[n as int]);
                    assert(left.last() == (data, length));
                }
                let key = data.id().clone();
                let ghost before = self.records@;
                self.records.insert(key, CsvRecordInfo { data, length, offset: offsets[n] });
                proof {
                    assert(reversed@ =~= Seq::new(reversed@.len(), |i: int| all[all.len() - 1 - i]));
                    assert forall|k: Seq<char>| #[trigger] self.records@.contains_key(k) implies self.records@[k].data.key()
                        == k by {
                        if k != key@ {
                            assert(before.contains_key(k));
                        }
                    }
                }
            }
            n += 1;
        }
    }

    /// A record that holds nothing.
    pub fn calc_empty_record(&self) -> (r: Vec<u8>)
        requires
            self.record_width >= 1,
        ensures
            r@ == empty_record(self.record_width as nat),
    {
        let mut r: Vec<u8> = Vec::new();
        let mut i: usize = 0;
        while i < self.record_width - 1
            invariant
                self.record_width >= 1,
                i <= self.record_width - 1,
                r@ == empty_record(self.record_width as nat).take(i as int),
            decreases self.record_width - i,
        {
            r.push(45);
            i += 1;
            proof {
                assert(r@ =~= empty_record(self.record_width as nat).take(i as int));
            }
        }
        r.push(10);
        proof {
            assert(r@ =~= empty_record(self.record_width as nat));
        }
        r
    }

    /// A record that holds a row.
    pub fn calc_csv_row(&self, row: &[u8]) -> (r: Result<Vec<u8>, CsvDbError>)
        requires
            self.record_width >= 1,
        ensures
            r is Ok <==> row@.len() <= self.record_width,
            r is Ok ==> r->Ok_0@ == row_record(row@, self.record_width as nat),
            r is Err ==> r->Err_0 == CsvDbError::Serialize,
    {
        if row.len() > self.record_width {
            return Err(CsvDbError::Serialize);
        }
        let mut r = self.calc_empty_record();
        let ghost blank = empty_record(self.record_width as nat);
        let mut i: usize = 0;
        proof {
            assert(row@.take(0) + blank.skip(0) =~= blank);
        }
        while i < row.len()
            invariant
                i <= row@.len() <= self.record_width,
                row@.len() == row.len(),
                blank == empty_record(self.record_width as nat),
                r@ == row@.take(i as int) + blank.skip(i as int),
            decreases row@.len() - i,
        {
            r[i] = row[i];
            i += 1;
            proof {
                assert(r@ =~= row@.take(i as int) + blank.skip(i as int));
            }
        }
        proof {
            assert(row@.take(row@.len() as int) =~= row@);
        }
        Ok(r)
    }

    /// What inserting a record leads to.
    pub open spec fn insert_step(self, record: T, row: Option<Seq<u8>>) -> InsertStep {
        if self.records@.contains_key(record.key()) && self.records@[record.key()].data.equals(&record) {
            InsertStep::Unchanged
        } else {
            match row {
                Some(row) => if row.len() > self.record_width {
                    InsertStep::Refused
                } else {
                    InsertStep::Write {
                        over: if self.records@.contains_key(record.key()) {
                            Some(self.records@[record.key()].offset)
                        } else {
                            None
                        },
                        bytes: row_record(row, self.record_width as nat),
                    }
                },
                None => InsertStep::Refused,
            }
        }
    }

    /// Plans the insertion of a record. `row` is the record as comma separated values,
    /// or nothing where it could not be written as such. A record that the file
    /// holds already asks for nothing; one with a known key is overwritten in its
    /// place; any other goes to the end.
    pub fn insert(&self, record: &T, row: Option<&[u8]>) -> (r: Result<InsertPlan, CsvDbError>)
        requires
            self.wf(),
            self.records@.contains_key(record.key()) && self.records@[record.key()].data.equals(record)
                || self.record_width >= 1,
        ensures
            ({
                let known = self.records@.contains_key(record.key());
                let stored = self.records@[record.key()];
                if known && stored.data.equals(record) {
                    r == Ok::<InsertPlan, CsvDbError>(InsertPlan::Unchanged)
                } else if row is None || row->0@.len() > self.record_width {
                    r == Err::<InsertPlan, CsvDbError>(CsvDbError::Serialize)
                } else if known {
                    &&& r is Ok
                    &&& r->Ok_0 matches InsertPlan::Overwrite { offset, row: bytes }
                    &&& offset == stored.offset
                    &&& bytes@ == row_record(row->0@, self.record_width as nat)
                } else {
                    &&& r is Ok
                    &&& r->Ok_0 matches InsertPlan::Append { row: bytes }
                    &&& bytes@ == row_record(row->0@, self.record_width as nat)
                }
            }),
            self.insert_step(*record, match row {
                Some(row) => Some(row@),
                None => None,
            }) == insert_step_of(r),
    {
        let known = match self.records.get(record.id().as_str()) {
            Some(stored) => {
                if stored.data.same_as(record) {
                    return Ok(InsertPlan::Unchanged);
                }
                Some(stored.offset)
            },
            None => None,
        };
        match row {
            None => Err(CsvDbError::Serialize),
            Some(row) => match self.calc_csv_row(row) {
                Err(e) => Err(e),
                Ok(bytes) => match known {
                    Some(offset) => Ok(InsertPlan::Overwrite { offset, row: bytes }),
                    None => Ok(InsertPlan::Append { row: bytes }),
                },
            },
        }
    }

    /// Enters a record that has been written at `offset`, with its row's length.
    pub fn complete_insert(&mut self, record: T, offset: u32, length: usize)
        requires
            old(self).wf(),
        ensures
            final(self).wf(),
            final(self).same_file(*old(self)),
            final(self).records@ == old(self).records@.insert(
                record.key(),
                CsvRecordInfo { data: record, length, offset },
            ),
    {
        let key = record.id().clone();
        let ghost before = self.records@;
        self.records.insert(key, CsvRecordInfo { data: record, length, offset });
        proof {
            assert forall|k: Seq<char>| #[trigger] self.records@.contains_key(k) implies self.records@[k].data.key()
                == k by {
                if k != key@ {
                    assert(before.contains_key(k));
                }
            }
        }
    }

    /// Plans the deletion of a record: its place is emptied. Nothing is to be done
    /// where there is no such record.
    pub fn delete(&self, id: &str) -> (r: Option<DeletePlan>)
        requires
            self.wf(),
            self.records@.contains_key(id@) ==> self.record_width >= 1,
        ensures
            r is Some <==> self.records@.contains_key(id@),
            r is Some ==> r->0.offset == self.records@[id@].offset && r->0.row@ == empty_record(
                self.record_width as nat,
            ),
    {
        match self.records.get(id) {
            Some(stored) => Some(DeletePlan { offset: stored.offset, row: self.calc_empty_record() }),
            None => None,
        }
    }

    /// Removes a record whose place has been emptied, and hands it back.
    pub fn complete_delete(&mut self, id: &str) -> (r: Option<T>)
        requires
            old(self).wf(),
        ensures
            final(self).wf(),
            final(self).same_file(*old(self)),
            final(self).records@ == old(self).records@.remove(id@),
            r is Some <==> old(self).records@.contains_key(id@),
            r is Some ==> r->0 == old(self).records@[id@].data,
    {
        let ghost before = self.records@;
        match self.records.remove(id) {
            Some(info) => {
                proof {
                    assert forall|k: Seq<char>| #[trigger] self.records@.contains_key(k) implies
                        self.records@[k].data.key() == k by {
                        assert(before.contains_key(k));
                    }
                }
                Some(info.data)
            },
            None => {
                proof {
                    assert(before.remove(id@) =~= before);
                }
                None
            },
        }
    }
}

/// Where a record can stand in a file.
pub open spec fn aligned(file: Seq<u8>, width: int, offset: int) -> bool {
    0 <= offset && offset % width == 0 && offset + width <= file.len()
}

/// The record at a position of a file.
pub open spec fn frame(file: Seq<u8>, width: int, offset: int) -> Seq<u8> {
    file.subrange(offset, offset + width)
}

/// A file after bytes were written at a position.
pub open spec fn written(file: Seq<u8>, offset: int, bytes: Seq<u8>) -> Seq<u8> {
    file.take(offset) + bytes + file.skip(offset + bytes.len())
}

impl<T: CsvDbId> CsvDb<T> {
    /// The records are those of the file: each stands where it is said to, and the
    /// file holds no others. `dec` reads a record from its bytes.
    pub open spec fn agrees(self, file: Seq<u8>, dec: spec_fn(Seq<u8>) -> Option<(T, usize)>) -> bool {
        let w = self.record_width as int;
        &&& w >= 1
        &&& file.len() % w as nat == 0
        &&& forall|k: Seq<char>| #[trigger]
            self.records@.contains_key(k) ==> {
                let info = self.records@[k];
                &&& aligned(file, w, info.offset as int)
                &&& !holds_nothing(frame(file, w, info.offset as int))
                &&& dec(frame(file, w, info.offset as int)) == Some((info.data, info.length))
                &&& info.data.key() == k
            }
        &&& forall|o: int| #[trigger]
            aligned(file, w, o) && !holds_nothing(frame(file, w, o)) ==> exists|k: Seq<char>| #[trigger]
                self.records@.contains_key(k) && self.records@[k].offset == o
    }
}

proof fn lemma_apart(w: int, a: int, b: int)
    requires
        w >= 1,
        a % w == 0,
        b % w == 0,
        a < b,
    ensures
        a + w <= b,
{
    vstd::arithmetic::div_mod::lemma_fundamental_div_mod(a, w);
    vstd::arithmetic::div_mod::lemma_fundamental_div_mod(b, w);
    let i = a / w;
    let j = b / w;
    assert(i < j) by (nonlinear_arith)
        requires
            w * i < w * j,
            w >= 1,
    ;
    assert(w * i + w <= w * j) by (nonlinear_arith)
        requires
            i + 1 <= j,
            w >= 1,
    ;
}

proof fn lemma_other_frame(file: Seq<u8>, w: int, at: int, bytes: Seq<u8>, o: int)
    requires
        w >= 1,
        aligned(file, w, at),
        aligned(file, w, o),
        bytes.len() == w,
        o != at,
    ensures
        frame(written(file, at, bytes), w, o) == frame(file, w, o),
{
    if o < at {
        lemma_apart(w, o, at);
    } else {
        lemma_apart(w, at, o);
    }
    assert(frame(written(file, at, bytes), w, o) =~= frame(file, w, o));
}

/// Overwriting: after the planned bytes were written over the old record, the records
/// are again those of the file.
pub proof fn overwriting_keeps_agreement<T: CsvDbId>(
    before: CsvDb<T>,
    after: CsvDb<T>,
    file: Seq<u8>,
    record: T,
    row: Seq<u8>,
    length: usize,
    dec: spec_fn(Seq<u8>) -> Option<(T, usize)>,
)
    requires
        before.agrees(file, dec),
        before.records@.contains_key(record.key()),
        row.len() <= before.record_width,
        !holds_nothing(row_record(row, before.record_width as nat)),
        dec(row_record(row, before.record_width as nat)) == Some((record, length)),
        after.record_width == before.record_width,
        after.records@ == before.records@.insert(
            record.key(),
            CsvRecordInfo { data: record, length, offset: before.records@[record.key()].offset },
        ),
    ensures
        after.agrees(
            written(
                file,
                before.records@[record.key()].offset as int,
                row_record(row, before.record_width as nat),
            ),
            dec,
        ),
{
    let w = before.record_width as int;
    let at = before.records@[record.key()].offset as int;
    let bytes = row_record(row, w as nat);
    let now = written(file, at, bytes);
    assert(now.len() == file.len());
    assert(frame(now, w, at) =~= bytes);
    assert forall|k: Seq<char>| #[trigger] after.records@.contains_key(k) implies {
        let info = after.records@[k];
        &&& aligned(now, w, info.offset as int)
        &&& !holds_nothing(frame(now, w, info.offset as int))
        &&& dec(frame(now, w, info.offset as int)) == Some((info.data, info.length))
        &&& info.data.key() == k
    } by {
        if k != record.key() {
            assert(before.records@.contains_key(k));
            let o = before.records@[k].offset as int;
            assert(o != at);
            lemma_other_frame(file, w, at, bytes, o);
        }
    }
    assert forall|o: int| #[trigger] aligned(now, w, o) && !holds_nothing(frame(now, w, o)) implies exists|
        k: Seq<char>,
    | #[trigger]
        after.records@.contains_key(k) && after.records@[k].offset == o by {
        if o == at {
            assert(after.records@.contains_key(record.key()));
        } else {
            assert(aligned(file, w, o));
            lemma_other_frame(file, w, at, bytes, o);
            let k = choose|k: Seq<char>| #[trigger]
                before.records@.contains_key(k) && before.records@[k].offset == o;
            assert(after.records@.contains_key(k));
        }
    }
}

/// Appending: after the planned bytes were written at the end, the records are again
/// those of the file.
pub proof fn appending_keeps_agreement<T: CsvDbId>(
    before: CsvDb<T>,
    after: CsvDb<T>,
    file: Seq<u8>,
    record: T,
    row: Seq<u8>,
    length: usize,
    dec: spec_fn(Seq<u8>) -> Option<(T, usize)>,
)
    requires
        before.agrees(file, dec),
        !before.records@.contains_key(record.key()),
        row.len() <= before.record_width,
        file.len() <= u32::MAX,
        !holds_nothing(row_record(row, before.record_width as nat)),
        dec(row_record(row, before.record_width as nat)) == Some((record, length)),
        after.record_width == before.record_width,
        after.records@ == before.records@.insert(
            record.key(),
            CsvRecordInfo { data: record, length, offset: file.len() as u32 },
        ),
    ensures
        after.agrees(file + row_record(row, before.record_width as nat), dec),
{
    let w = before.record_width as int;
    let at = file.len() as int;
    let bytes = row_record(row, w as nat);
    let now = file + bytes;
    assert(frame(now, w, at) =~= bytes);
    vstd::arithmetic::div_mod::lemma_mod_add_multiples_vanish(at, w);
    assert((at + w) % w == 0);
    assert forall|o: int| #[trigger] aligned(file, w, o) implies frame(now, w, o) == frame(file, w, o) by {
        assert(frame(now, w, o) =~= frame(file, w, o));
    }
    assert forall|k: Seq<char>| #[trigger] after.records@.contains_key(k) implies {
        let info = after.records@[k];
        &&& aligned(now, w, info.offset as int)
        &&& !holds_nothing(frame(now, w, info.offset as int))
        &&& dec(frame(now, w, info.offset as int)) == Some((info.data, info.length))
        &&& info.data.key() == k
    } by {
        if k != record.key() {
            assert(before.records@.contains_key(k));
            assert(aligned(file, w, before.records@[k].offset as int));
        } else {
            assert(aligned(now, w, at));
        }
    }
    assert forall|o: int| #[trigger] aligned(now, w, o) && !holds_nothing(frame(now, w, o)) implies exists|
        k: Seq<char>,
    | #[trigger]
        after.records@.contains_key(k) && after.records@[k].offset == o by {
        if o == at {
            assert(after.records@.contains_key(record.key()));
        } else {
            if o > at {
                lemma_apart(w, at, o);
            } else {
                lemma_apart(w, o, at);
            }
            assert(aligned(file, w, o));
            let k = choose|k: Seq<char>| #[trigger]
                before.records@.contains_key(k) && before.records@[k].offset == o;
            assert(after.records@.contains_key(k));
        }
    }
}

/// Deleting: after the record was emptied, the records are again those of the file. A
/// record of width one cannot be told from an empty one.
pub proof fn deleting_keeps_agreement<T: CsvDbId>(
    before: CsvDb<T>,
    after: CsvDb<T>,
    file: Seq<u8>,
    key: Seq<char>,
    dec: spec_fn(Seq<u8>) -> Option<(T, usize)>,
)
    requires
        before.agrees(file, dec),
        before.record_width >= 2,
        before.records@.contains_key(key),
        after.record_width == before.record_width,
        after.records@ == before.records@.remove(key),
    ensures
        after.agrees(
            written(file, before.records@[key].offset as int, empty_record(before.record_width as nat)),
            dec,
        ),
{
    let w = before.record_width as int;
    let at = before.records@[key].offset as int;
    let bytes = empty_record(w as nat);
    let now = written(file, at, bytes);
    assert(now.len() == file.len());
    assert(frame(now, w, at) =~= bytes);
    assert(holds_nothing(bytes));
    assert forall|k: Seq<char>| #[trigger] after.records@.contains_key(k) implies {
        let info = after.records@[k];
        &&& aligned(now, w, info.offset as int)
        &&& !holds_nothing(frame(now, w, info.offset as int))
        &&& dec(frame(now, w, info.offset as int)) == Some((info.data, info.length))
        &&& info.data.key() == k
    } by {
        assert(before.records@.contains_key(k));
        let o = before.records@[k].offset as int;
        assert(o != at);
        lemma_other_frame(file, w, at, bytes, o);
    }
    assert forall|o: int| #[trigger] aligned(now, w, o) && !holds_nothing(frame(now, w, o)) implies exists|
        k: Seq<char>,
    | #[trigger]
        after.records@.contains_key(k) && after.records@[k].offset == o by {
        assert(o != at);
        assert(aligned(file, w, o));
        lemma_other_frame(file, w, at, bytes, o);
        let k = choose|k: Seq<char>| #[trigger]
            before.records@.contains_key(k) && before.records@[k].offset == o;
        assert(k != key);
        assert(after.records@.contains_key(k));
    }
}

/// A file determines its records: what was written is what is read back.
pub proof fn file_determines_records<T: CsvDbId>(
    a: CsvDb<T>,
    b: CsvDb<T>,
    file: Seq<u8>,
    dec: spec_fn(Seq<u8>) -> Option<(T, usize)>,
)
    requires
        a.agrees(file, dec),
        b.agrees(file, dec),
        a.record_width == b.record_width,
    ensures
        a.records@ == b.records@,
{
    lemma_records_included(a, b, file, dec);
    lemma_records_included(b, a, file, dec);
    assert(a.records@ =~= b.records@);
}

proof fn lemma_records_included<T: CsvDbId>(
    a: CsvDb<T>,
    b: CsvDb<T>,
    file: Seq<u8>,
    dec: spec_fn(Seq<u8>) -> Option<(T, usize)>,
)
    requires
        a.agrees(file, dec),
        b.agrees(file, dec),
        a.record_width == b.record_width,
    ensures
        forall|k: Seq<char>| #[trigger]
            a.records@.contains_key(k) ==> b.records@.contains_key(k) && b.records@[k] == a.records@[k],
{
    let w = a.record_width as int;
    assert forall|k: Seq<char>| #[trigger] a.records@.contains_key(k) implies b.records@.contains_key(k)
        && b.records@[k] == a.records@[k] by {
        let o = a.records@[k].offset as int;
        assert(aligned(file, w, o) && !holds_nothing(frame(file, w, o)));
        let other = choose|j: Seq<char>| #[trigger] b.records@.contains_key(j) && b.records@[j].offset == o;
        assert(b.records@.contains_key(other));
        assert(b.records@[other].data == a.records@[k].data);
        assert(other == k);
    }
}

/// Reading a file gives its records, where no two of them have one key.
pub proof fn reading_gives_the_records<T: CsvDbId>(
    db: CsvDb<T>,
    file: Seq<u8>,
    decoded: Seq<(T, usize)>,
    dec: spec_fn(Seq<u8>) -> Option<(T, usize)>,
)
    requires
        db.record_width >= 1,
        file.len() % db.record_width as nat == 0,
        file.len() <= u32::MAX,
        ({
            let w = db.record_width as int;
            let offsets = occupied(file, w, file.len() as int / w);
            &&& offsets.len() == decoded.len()
            &&& forall|i: int|
                0 <= i < decoded.len() ==> dec(frame(file, w, (#[trigger] offsets[i]) as int)) == Some(decoded[i])
            &&& db.records@ == entered(Map::empty(), offsets, decoded, decoded.len() as int)
        }),
        forall|i: int, j: int|
            0 <= i < j < decoded.len() ==> (#[trigger] decoded[i]).0.key() != (#[trigger] decoded[j]).0.key(),
    ensures
        db.agrees(file, dec),
{
    let w = db.record_width as int;
    let count = file.len() as int / w;
    let offsets = occupied(file, w, count);
    vstd::arithmetic::div_mod::lemma_fundamental_div_mod(file.len() as int, w);
    assert(w * count == file.len());
    lemma_occupied(file, w, count, count);
    lemma_entered(offsets, decoded, decoded.len() as int);
    assert forall|k: Seq<char>| #[trigger] db.records@.contains_key(k) implies {
        let info = db.records@[k];
        &&& aligned(file, w, info.offset as int)
        &&& !holds_nothing(frame(file, w, info.offset as int))
        &&& dec(frame(file, w, info.offset as int)) == Some((info.data, info.length))
        &&& info.data.key() == k
    } by {
        let i = choose|i: int| 0 <= i < decoded.len() && (#[trigger] decoded[i]).0.key() == k;
        assert(aligned(file, w, offsets[i] as int));
    }
    assert forall|o: int| #[trigger] aligned(file, w, o) && !holds_nothing(frame(file, w, o)) implies exists|
        k: Seq<char>,
    | #[trigger]
        db.records@.contains_key(k) && db.records@[k].offset == o by {
        vstd::arithmetic::div_mod::lemma_fundamental_div_mod(o, w);
        let n = o / w;
        assert(n < count) by (nonlinear_arith)
            requires
                w * n + w <= w * count,
                w >= 1,
        ;
        assert(n >= 0) by (nonlinear_arith)
            requires
                w * n >= 0,
                w >= 1,
        ;
        assert(n * w == o) by (nonlinear_arith)
            requires
                w * n == o,
        ;
        assert(record_at(file, w, n) == frame(file, w, o));
        let i = choose|i: int| 0 <= i < offsets.len() && #[trigger] offsets[i] == n * w;
        assert(decoded[i].0.key() == decoded[i].0.key());
        assert(db.records@.contains_key(decoded[i].0.key()));
    }
}

proof fn lemma_occupied(file: Seq<u8>, w: int, count: int, n: int)
    requires
        w >= 1,
        w * count == file.len(),
        file.len() <= u32::MAX,
        0 <= n <= count,
    ensures
        forall|i: int|
            0 <= i < occupied(file, w, n).len() ==> aligned(file, w, (#[trigger] occupied(file, w, n)[i]) as int)
                && !holds_nothing(frame(file, w, occupied(file, w, n)[i] as int)),
        forall|m: int|
            0 <= m < n && !holds_nothing(#[trigger] record_at(file, w, m)) ==> exists|i: int|
                0 <= i < occupied(file, w, n).len() && #[trigger] occupied(file, w, n)[i] == m * w,
    decreases n,
{
    if n > 0 {
        lemma_occupied(file, w, count, n - 1);
        let before = occupied(file, w, n - 1);
        let o = (n - 1) * w;
        assert(0 <= o && o + w <= file.len()) by (nonlinear_arith)
            requires
                o == (n - 1) * w,
                n >= 1,
                n <= count,
                w >= 1,
                w * count == file.len(),
        ;
        vstd::arithmetic::div_mod::lemma_mod_multiples_basic(n - 1, w);
        assert(aligned(file, w, o));
        let now = occupied(file, w, n);
        assert forall|i: int| 0 <= i < now.len() implies aligned(file, w, (#[trigger] now[i]) as int)
            && !holds_nothing(frame(file, w, now[i] as int)) by {
            if i < before.len() {
                assert(now[i] == before[i]);
            }
        }
        assert forall|m: int| 0 <= m < n && !holds_nothing(#[trigger] record_at(file, w, m)) implies exists|i: int|
            0 <= i < now.len() && #[trigger] now[i] == m * w by {
            if m == n - 1 {
                assert(now[now.len() - 1] == m * w);
            } else {
                let i = choose|i: int| 0 <= i < before.len() && #[trigger] before[i] == m * w;
                assert(now[i] == before[i]);
            }
        }
    }
}

proof fn lemma_entered<T: CsvDbId>(offsets: Seq<u32>, decoded: Seq<(T, usize)>, n: int)
    requires
        0 <= n <= decoded.len(),
        offsets.len() == decoded.len(),
        forall|i: int, j: int|
            0 <= i < j < decoded.len() ==> (#[trigger] decoded[i]).0.key() != (#[trigger] decoded[j]).0.key(),
    ensures
        ({
            let m = entered(Map::empty(), offsets, decoded, n);
            &&& forall|i: int|
                0 <= i < n ==> m.contains_key((#[trigger] decoded[i]).0.key()) && m[decoded[i].0.key()] == (
                CsvRecordInfo { data: decoded[i].0, length: decoded[i].1, offset: offsets[i] })
            &&& forall|k: Seq<char>| #[trigger]
                m.contains_key(k) ==> exists|i: int| 0 <= i < n && (#[trigger] decoded[i]).0.key() == k
        }),
    decreases n,
{
    if n > 0 {
        lemma_entered(offsets, decoded, n - 1);
        let before = entered(Map::empty(), offsets, decoded, n - 1);
        let m = entered(Map::empty(), offsets, decoded, n);
        assert forall|k: Seq<char>| #[trigger] m.contains_key(k) implies exists|i: int|
            0 <= i < n && (#[trigger] decoded[i]).0.key() == k by {
            if k == decoded[n - 1].0.key() {
            } else {
                assert(before.contains_key(k));
                let i = choose|i: int| 0 <= i < n - 1 && (#[trigger] decoded[i]).0.key() == k;
                assert(0 <= i < n && decoded[i].0.key() == k);
            }
        }
    }
}

/// An emptied record of more than one byte counts as empty.
pub proof fn emptied_record_is_empty(width: nat)
    requires
        width > 1,
    ensures
        holds_nothing(empty_record(width)),
{
}

proof fn lemma_trim_shortens(s: Seq<char>)
    ensures
        trim_start(s).len() <= s.len(),
        trim_end(s).len() <= s.len(),
    decreases s.len(),
{
    if s.len() > 0 {
        lemma_trim_shortens(s.skip(1));
        lemma_trim_shortens(s.drop_last());
    }
}

proof fn lemma_no_edges(s: Seq<char>)
    requires
        trimmed(s) == s,
    ensures
        s.len() > 0 ==> !white_space(s[0]) && !white_space(s.last()),
        trim_start(s) == s,
        trim_end(s) == s,
{
    lemma_trim_shortens(s);
    lemma_trim_shortens(trim_start(s));
    if s.len() > 0 {
        lemma_trim_shortens(s.skip(1));
        lemma_trim_shortens(s.drop_last());
    }
}

proof fn lemma_description_lines(version: Seq<char>, width: nat)
    requires
        !version.contains('\n'),
    ensures
        lines_of(meta_text(version, width)).len() == 2,
        lines_of(meta_text(version, width))[0] == without_cr("version: "@ + version),
        lines_of(meta_text(version, width))[1] == "record_width:"@ + digits_of(width),
{
    reveal_strlit("version: ");
    reveal_strlit("record_width:");
    reveal_strlit("\nrecord_width:");
    let digits = digits_of(width);
    let first = "version: "@ + version;
    let second = "record_width:"@ + digits;
    let text = meta_text(version, width);
    assert("\nrecord_width:"@ =~= seq!['\n'] + "record_width:"@);
    assert(text =~= first + seq!['\n'] + second);
    assert forall|i: int| 0 <= i < first.len() implies text[i] != '\n' by {
        assert(text[i] == first[i]);
        if i >= 9 {
            assert(version.contains(version[i - 9]));
        }
    }
    lemma_position_is(text, '\n', first.len() as int);
    assert(text.take(first.len() as int) =~= first);
    assert(text.skip((first.len() + 1) as int) =~= second);
    digits_read_back(width);
    assert forall|i: int| 0 <= i < second.len() implies second[i] != '\n' by {
        if i >= 13 {
            assert(is_digit(digits[i - 13]));
        }
    }
    lemma_position_is(second, '\n', second.len() as int);
    reveal_with_fuel(lines_of, 3);
}

/// The description of a record file gives back the width that was written into it.
pub proof fn width_reads_back(version: Seq<char>, width: usize)
    requires
        !version.contains('\n'),
    ensures
        meta_width(meta_text(version, width as nat)) == Ok::<Option<usize>, CsvDbError>(Some(width)),
{
    lemma_description_lines(version, width as nat);
    reveal_strlit("record_width:");
    let digits = digits_of(width as nat);
    let second = "record_width:"@ + digits;
    number_reads_back(width as int);
    digits_read_back(width as nat);
    lemma_position_is(second, ':', 12);
    assert(second.skip(13) =~= digits);
    assert(is_digit(digits[0]) && is_digit(digits.last()));
    assert(trim_start(digits) == digits);
    assert(trim_end(digits) == digits);
}

/// The description of a record file gives back the version that was written into it, if
/// that is a line without white space around it.
pub proof fn version_reads_back(version: Seq<char>, width: nat)
    requires
        !version.contains('\n'),
        trimmed(version) == version,
    ensures
        meta_version(meta_text(version, width)) == version,
{
    lemma_description_lines(version, width);
    lemma_no_edges(version);
    reveal_strlit("version: ");
    let first = "version: "@ + version;
    assert(first.last() != '\r') by {
        if version.len() > 0 {
            assert(first.last() == version.last());
        } else {
            assert(first =~= "version: "@);
        }
    }
    assert(without_cr(first) == first);
    lemma_position_is(first, ':', 7);
    let value = first.skip(8);
    assert(value =~= seq![' '] + version);
    assert(value.skip(1) =~= version);
    assert(trim_start(value) == trim_start(version));
}

/// A record has its width: the row, then dashes, and a line feed at the end unless the row
/// takes all of it. A record that holds nothing is dashes and a line feed.
pub proof fn records_have_their_width(row: Seq<u8>, width: nat)
    requires
        row.len() <= width,
        width >= 1,
    ensures
        row_record(row, width).len() == width,
        forall|i: int| 0 <= i < row.len() ==> #[trigger] row_record(row, width)[i] == row[i],
        forall|i: int| row.len() <= i < width - 1 ==> #[trigger] row_record(row, width)[i] == 0x2d,
        row.len() < width ==> row_record(row, width)[width - 1] == 0x0a,
        empty_record(width).len() == width,
        forall|i: int| 0 <= i < width - 1 ==> #[trigger] empty_record(width)[i] == 0x2d,
        empty_record(width)[width - 1] == 0x0a,
{
}

/// A record holds nothing exactly where it is one dash or more and a line feed.
pub proof fn dashes_hold_nothing(s: Seq<u8>)
    ensures
        holds_nothing(s) <==> s.len() > 1 && s.last() == 0x0a && forall|i: int| 0 <= i < s.len() - 1 ==> #[trigger] s[i] == 0x2d,
{
    if s.len() > 1 && s.last() == 0x0a && forall|i: int| 0 <= i < s.len() - 1 ==> #[trigger] s[i] == 0x2d {
        assert(s =~= empty_record(s.len()));
    }
    if holds_nothing(s) {
        assert forall|i: int| 0 <= i < s.len() - 1 implies #[trigger] s[i] == 0x2d by {
            assert(empty_record(s.len())[i] == 45);
        }
        assert(empty_record(s.len())[s.len() - 1] == 10);
    }
}

/// Of the records of a file exactly those are read, in their order, that hold something:
/// each stands at a multiple of the width.
pub proof fn occupied_records_are_read(file: Seq<u8>, width: int, n: int) -> (at: Seq<int>)
    requires
        width >= 1,
        n >= 0,
        n * width <= u32::MAX,
    ensures
        lists_marked(
            at,
            Seq::new(n as nat, |i: int| !holds_nothing(file.subrange(i * width, i * width + width))),
        ),
        occupied(file, width, n).len() == at.len(),
        forall|k: int| 0 <= k < at.len() ==> #[trigger] occupied(file, width, n)[k] == at[k] * width,
    decreases n,
{
    let marks = Seq::new(n as nat, |i: int| !holds_nothing(file.subrange(i * width, i * width + width)));
    if n == 0 {
        assert(lists_marked(seq![], marks));
        seq![]
    } else {
        assert((n - 1) * width <= n * width && (n - 1) * width >= 0) by (nonlinear_arith)
            requires
                n >= 1,
                width >= 1,
        ;
        let before = occupied_records_are_read(file, width, n - 1);
        let fewer = Seq::new((n - 1) as nat, |i: int| !holds_nothing(file.subrange(i * width, i * width + width)));
        let held = !holds_nothing(record_at(file, width, n - 1));
        lemma_lists_marked(before, fewer, held);
        assert(fewer.push(held) =~= marks);
        if held {
            before.push(n - 1)
        } else {
            before
        }
    }
}

/// Of the records that were read the last one with a key stays under it, with its place and
/// length. A key that none has keeps what it had.
pub proof fn last_record_with_a_key_stays<T: CsvDbId>(
    before: Map<Seq<char>, CsvRecordInfo<T>>,
    offsets: Seq<u32>,
    decoded: Seq<(T, usize)>,
    n: int,
    i: int,
    key: Seq<char>,
)
    requires
        -1 <= i < n || (n == 0 && i == -1),
        0 <= n <= decoded.len(),
        i >= 0 ==> decoded[i].0.key() == key,
        forall|j: int| i < j < n ==> (#[trigger] decoded[j]).0.key() != key,
    ensures
        i >= 0 ==> entered(before, offsets, decoded, n).contains_key(key) && entered(before, offsets, decoded, n)[key]
            == (CsvRecordInfo { data: decoded[i].0, length: decoded[i].1, offset: offsets[i] }),
        i == -1 ==> entered(before, offsets, decoded, n).contains_key(key) == before.contains_key(key),
        i == -1 && before.contains_key(key) ==> entered(before, offsets, decoded, n)[key] == before[key],
    decreases n,
{
    if n > 0 && i < n - 1 {
        assert(decoded[n - 1].0.key() != key);
        last_record_with_a_key_stays(before, offsets, decoded, n - 1, i, key);
    }
}

/// A description without a second line, or with one that has no colon, says no width; a
/// width that is no number is an error.
pub proof fn description_says_its_width(first: Seq<char>, name: Seq<char>, value: Seq<char>)
    requires
        !first.contains('\n'),
        !name.contains('\n'),
        !name.contains(':'),
        !value.contains('\n'),
        first.len() == 0 || first.last() != '\r',
        name.len() == 0 || name.last() != '\r',
        value.len() == 0 || value.last() != '\r',
    ensures
        meta_width(first) == Ok::<Option<usize>, CsvDbError>(None),
        meta_width(first + seq!['\n'] + name) == Ok::<Option<usize>, CsvDbError>(None),
        meta_width(first + seq!['\n'] + (name + seq![':'] + value)) == (match parsed(
            trimmed(value),
            0,
            usize::MAX as int,
        ) {
            Some(n) => Ok::<Option<usize>, CsvDbError>(Some(n as usize)),
            None => Err::<Option<usize>, CsvDbError>(CsvDbError::Metadata),
        }),
{
    let line = name + seq![':'] + value;
    assert(!line.contains('\n')) by {
        if line.contains('\n') {
            let i = choose|i: int| 0 <= i < line.len() && line[i] == '\n';
            if i < name.len() {
                assert(name[i] == '\n');
            } else if i > name.len() {
                assert(value[i - name.len() - 1] == '\n');
            }
        }
    }
    line_feed_ends_a_line(first, name);
    line_feed_ends_a_line(first, line);
    line_feed_ends_a_line(name, seq![]);
    line_feed_ends_a_line(line, seq![]);
    assert(name.len() == 0 ==> name =~= seq![]);
    assert(first.len() == 0 ==> first =~= seq![]);
    assert forall|i: int| 0 <= i < name.len() implies name[i] != ':' by {
        assert(name.contains(name[i]));
    }
    lemma_position_is(name, ':', name.len() as int);
    lemma_position_is(line, ':', name.len() as int);
    assert(line.skip(name.len() as int + 1) =~= value);
    assert(lines_of(first + seq!['\n'] + line)[1] == line);
}

/// Two record files are the same file where their names and widths are.
pub proof fn files_are_the_same_by_name_and_width<T: CsvDbId>(a: CsvDb<T>, b: CsvDb<T>)
    ensures
        a.same_file(b) <==> a.db_file_name == b.db_file_name && a.dbm_file_name == b.dbm_file_name && a.record_width
            == b.record_width,
{
}

/// A record is written unless the file holds it already, as it is. It goes over the record
/// with its key, or to the end where there is none, and is refused only where it could not
/// be written as a row that fits.
pub proof fn changed_record_is_written<T: CsvDbId>(db: CsvDb<T>, record: T, row: Option<Seq<u8>>)
    ensures
        ({
            let known = db.records@.contains_key(record.key());
            let held = known && db.records@[record.key()].data.equals(&record);
            let fits = row is Some && row->0.len() <= db.record_width;
            let step = db.insert_step(record, row);
            &&& step is Unchanged <==> held
            &&& step is Refused <==> !held && !fits
            &&& !held && fits ==> {
                &&& step is Write
                &&& known ==> step->over == Some(db.records@[record.key()].offset)
                &&& !known ==> step->over is None
                &&& step->bytes == row_record(row->0, db.record_width as nat)
            }
        }),
        forall|r: Result<InsertPlan, CsvDbError>| (#[trigger] insert_step_of(r) is Refused <==> r is Err) && (insert_step_of(r)
            is Unchanged <==> r == Ok::<InsertPlan, CsvDbError>(InsertPlan::Unchanged)),
        forall|r: Result<InsertPlan, CsvDbError>|
            (#[trigger] insert_step_of(r) is Write && insert_step_of(r)->over is Some ==> (
            r matches Ok(InsertPlan::Overwrite { offset, row }) && insert_step_of(r)->over == Some(offset)
                && insert_step_of(r)->bytes == row@)) && (insert_step_of(r) is Write && insert_step_of(r)->over is None ==> (
            r matches Ok(InsertPlan::Append { row }) && insert_step_of(r)->bytes == row@)),
{
}

} // verus!
