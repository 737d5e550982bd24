//! The spool store: the records of the spools, the index from tags to spools, and
//! what adding, updating, editing and deleting a spool asks of the files.

use crate::csvdb::{CsvDb, CsvDbError, CsvDbId, CsvRecordInfo, DeletePlan};
use crate::hex_text::{encode_upper, hex_upper};
use crate::numbers::{int_string, int_text, is_digit, number_reads_back, parse_i32, parsed, write_int};
use crate::spool_record::{KInfo, SpoolRecord, SpoolRecordExt};
use crate::text::{append, chars_of, lemma_position_is, same_text, text_of, texts};
use crate::text_map::TextMap;
use vstd::prelude::*;

verus! {

/// What can go wrong with the store.
#[derive(Debug)]
pub enum StoreError {
    TooManyOps,
    CsvDbError { source: CsvDbError },
    Store,
    InternalError,
    NotFound { id: String },
    NoCsvDb,
    MissingId,
    BadId,
    IdNotFound,
    ExtFileReadFailure { error: String },
    ExtFormat,
}

/// How a record was written: not at all, as the file held it already, or at an offset
/// with the length of its row.
#[derive(Clone, Copy, Debug, PartialEq, Eq, Structural)]
pub enum Written {
    Unchanged,
    At { offset: u32, length: usize },
}

/// A record and how it was written, or why it could not be.
#[derive(Debug)]
pub struct Rewritten {
    pub record: SpoolRecord,
    pub written: Result<Written, CsvDbError>,
}

/// A tag that identifies a spool: not empty, and not struck out by a dash.
pub open spec fn usable(tag: Seq<char>) -> bool {
    tag.len() > 0 && tag[0] != '-'
}

/// `r` is the record `of` with its tag struck out by a dash.
pub open spec fn is_struck(r: SpoolRecord, of: SpoolRecord) -> bool {
    &&& r.tag_id@ == seq!['-'] + of.tag_id@
    &&& r == (SpoolRecord { tag_id: r.tag_id, ..of })
}

/// The spool store.
pub struct Store {
    pub spools_db: Option<CsvDb<SpoolRecord>>,
    pub last_spool_id: i32,
    pub tag_id_index: TextMap<String>,
    pub initialized: bool,
}

impl Store {
    /// The record file and the index are well formed, and indexed spools have an id.
    pub open spec fn wf(self) -> bool {
        &&& self.spools_db is Some ==> self.spools_db->0.wf()
        &&& self.tag_id_index.wf()
        &&& forall|t: Seq<char>| #[trigger]
            self.tag_id_index@.contains_key(t) ==> self.tag_id_index@[t]@.len() > 0
    }

    /// The records, by id.
    pub open spec fn records(self) -> Map<Seq<char>, CsvRecordInfo<SpoolRecord>> {
        if self.spools_db is Some {
            self.spools_db->0.records@
        } else {
            Map::empty()
        }
    }

    /// The record with an id.
    pub open spec fn rec(self, id: Seq<char>) -> Option<SpoolRecord> {
        if self.records().contains_key(id) {
            Some(self.records()[id].data)
        } else {
            None
        }
    }

    /// The id that the index gives for a tag.
    pub open spec fn indexed(self, tag: Seq<char>) -> Option<Seq<char>> {
        if self.tag_id_index@.contains_key(tag) {
            Some(self.tag_id_index@[tag]@)
        } else {
            None
        }
    }

    /// The record that the index gives for a tag.
    pub open spec fn owner(self, tag: Seq<char>) -> Option<SpoolRecord> {
        match self.indexed(tag) {
            Some(id) => self.rec(id),
            None => None,
        }
    }

    /// Every spool with a usable tag is the one that the index gives for it.
    pub open spec fn tags_indexed(self) -> bool {
        forall|k: Seq<char>| #[trigger]
            self.records().contains_key(k) && usable(self.records()[k].data.tag_id@) ==> self.indexed(
                self.records()[k].data.tag_id@,
            ) == Some(k)
    }

    /// Every spool with a usable tag is the one that the index gives for it, but for a
    /// spool `id` that is being given the tag `tag`.
    pub open spec fn tags_indexed_but(self, tag: Seq<char>, id: Seq<char>) -> bool {
        forall|k: Seq<char>| #[trigger]
            self.records().contains_key(k) && usable(self.records()[k].data.tag_id@) ==> self.indexed(
                self.records()[k].data.tag_id@,
            ) == Some(k) || (k == id && self.records()[k].data.tag_id@ == tag)
    }

    /// No id that is a number is above the last one that was given.
    pub open spec fn ids_bounded(self) -> bool {
        forall|k: Seq<char>| #[trigger]
            self.records().contains_key(k) && parsed(k, i32::MIN as int, i32::MAX as int) is Some ==> parsed(
                k,
                i32::MIN as int,
                i32::MAX as int,
            )->0 <= self.last_spool_id
    }

    /// No id in the index that is a number is above the last one that was given.
    pub open spec fn links_bounded(self) -> bool {
        forall|t: Seq<char>| #[trigger] self.tag_id_index@.contains_key(t) ==> self.id_was_given(self.tag_id_index@[t]@)
    }

    /// An id is no number, or not above the last one that was given.
    pub open spec fn id_was_given(self, id: Seq<char>) -> bool {
        parsed(id, i32::MIN as int, i32::MAX as int) is Some ==> parsed(id, i32::MIN as int, i32::MAX as int)->0
            <= self.last_spool_id
    }

    /// The tags are indexed, and no id is above the last one that was given.
    pub open spec fn consistent(self) -> bool {
        self.wf() && self.tags_indexed() && self.ids_bounded() && self.links_bounded()
    }

    /// An empty store, without record file.
    pub fn new() -> (r: Store)
        ensures
            r.wf(),
            r.spools_db is None,
            r.last_spool_id == 0,
            r.tag_id_index@ == Map::<Seq<char>, String>::empty(),
            !r.initialized,
            r.consistent(),
    {
        Store { spools_db: None, last_spool_id: 0, tag_id_index: TextMap::new(), initialized: false }
    }

    /// Whether the record file is open.
    pub fn is_available(&self) -> (r: bool)
        ensures
            r == (self.spools_db is Some),
    {
        self.spools_db.is_some()
    }

    /// Whether the store has been read, or found unreadable.
    pub fn is_initialized(&self) -> (r: bool)
        ensures
            r == self.initialized,
    {
        self.initialized
    }

    /// The record with an id.
    pub fn get_spool_by_id(&self, id: &str) -> (r: Option<SpoolRecord>)
        requires
            self.wf(),
        ensures
            r == self.rec(id@),
    {
        match &self.spools_db {
            Some(db) => match db.records.get(id) {
                Some(info) => Some(info.data.clone()),
                None => None,
            },
            None => None,
        }
    }

    /// The record that carries a tag, given in hexadecimal digits.
    pub fn get_spool_by_hex_tag(&self, tag_id_hex: &str) -> (r: Option<SpoolRecord>)
        requires
            self.wf(),
        ensures
            r == self.owner(tag_id_hex@),
            r is Some ==> r->0.id@.len() > 0,
    {
        match self.tag_id_index.get(tag_id_hex) {
            Some(id) => self.get_spool_by_id(id.as_str()),
            None => None,
        }
    }

    /// The record that carries a tag, given by its bytes.
    pub fn get_spool_by_tag_id(&self, tag_id: &[u8]) -> (r: Option<SpoolRecord>)
        requires
            self.wf(),
        ensures
            r == self.owner(hex_upper(tag_id@)),
    {
        let hex = encode_upper(tag_id);
        self.get_spool_by_hex_tag(hex.as_str())
    }

    /// The file with the extended record of a spool.
    pub fn get_spool_ext_by_id(&self, id: &str) -> (r: Result<String, StoreError>)
        requires
            self.wf(),
        ensures
            r is Ok <==> self.rec(id@) is Some && ext_path(id@) is Some,
            r is Ok ==> Some(r->Ok_0@) == ext_path(id@),
            r is Err ==> (r->Err_0 matches StoreError::NotFound { id: missing } && missing@ == id@),
    {
        if self.get_spool_by_id(id).is_none() {
            return Err(StoreError::NotFound { id: id.to_string() });
        }
        match spool_rec_ext_file_path(id) {
            Ok(path) => Ok(path),
            Err(_) => Err(StoreError::NotFound { id: id.to_string() }),
        }
    }

    /// The file that an extended record is to be written to.
    pub fn store_spool_rec_ext(&self, id: &str) -> (r: Result<String, StoreError>)
        ensures
            r is Ok <==> ext_path(id@) is Some,
            r is Ok ==> Some(r->Ok_0@) == ext_path(id@),
            r is Err ==> r->Err_0 is BadId,
    {
        spool_rec_ext_file_path(id)
    }

    /// All rows one after another, in the order of the walk over the records. `rows`
    /// are the records as comma separated values, nothing where one could not be
    /// written as such.
    pub fn query_spools(&self, rows: &Vec<Option<String>>) -> (r: Option<String>)
        requires
            self.spools_db is Some ==> rows@.len() == self.spools_db->0.records.order().len(),
        ensures
            r is Some <==> self.spools_db is Some && forall|i: int| 0 <= i < rows@.len() ==> #[trigger] rows@[i] is Some,
            r is Some ==> r->0@ == all_rows(rows@),
    {
        if self.spools_db.is_none() {
            return None;
        }
        let mut all: Vec<char> = Vec::new();
        let mut i: usize = 0;
        proof {
            assert(rows@.take(0).len() == 0);
        }
        while i < rows.len()
            invariant
                i <= rows@.len(),
                self.spools_db is Some,
                forall|j: int| 0 <= j < i ==> #[trigger] rows@[j] is Some,
                all@ == all_rows(rows@.take(i as int)),
            decreases rows@.len() - i,
        {
            match &rows[i] {
                Some(row) => {
                    let chars = chars_of(row.as_str());
                    append(&mut all, chars.as_slice());
                },
                None => {
                    return None;
                },
            }
            i += 1;
            proof {
                assert(rows@.take(i as int).drop_last() =~= rows@.take(i - 1));
            }
        }
        proof {
            assert(rows@.take(rows@.len() as int) =~= rows@);
        }
        Some(text_of(all.as_slice()))
    }
}

/// Rows one after another.
pub open spec fn all_rows(rows: Seq<Option<String>>) -> Seq<char>
    decreases rows.len(),
{
    if rows.len() == 0 {
        seq![]
    } else {
        all_rows(rows.drop_last()) + rows.last()->0@
    }
}

/// The folder of an extended record: sixteen ids share one, and sixteen folders are
/// used in turn.
pub open spec fn ext_folder(id: int) -> int {
    if id >= 0 {
        (id / 16) % 16 + 1
    } else {
        1 - ((-id) / 16) % 16
    }
}

/// The file with an extended record; there is none for an id that is no number.
pub open spec fn ext_path(id: Seq<char>) -> Option<Seq<char>> {
    match parsed(id, i32::MIN as int, i32::MAX as int) {
        Some(n) => Some(ext_path_of(n)),
        None => None,
    }
}

/// The file with the extended record of an id.
pub open spec fn ext_path_of(n: int) -> Seq<char> {
    "/store/spools.ext/"@ + int_text(ext_folder(n)) + seq!['/'] + int_text(n) + ".jsn"@
}

/// The file with an extended record.
pub fn spool_rec_ext_file_path(ext_rec_id: &str) -> (r: Result<String, StoreError>)
    ensures
        r is Ok <==> ext_path(ext_rec_id@) is Some,
        r is Ok ==> Some(r->Ok_0@) == ext_path(ext_rec_id@),
        r is Err ==> r->Err_0 is BadId,
{
    let id = chars_of(ext_rec_id);
    match parse_i32(id.as_slice()) {
        Some(n) => {
            let n = n as i64;
            let folder: i64 = if n >= 0 { (n / 16) % 16 + 1 } else { 1 - ((0 - n) / 16) % 16 };
            let mut path = chars_of("/store/spools.ext/");
            let folder_text = write_int(folder);
            append(&mut path, folder_text.as_slice());
            path.push('/');
            let id_text = write_int(n);
            append(&mut path, id_text.as_slice());
            let end = chars_of(".jsn");
            append(&mut path, end.as_slice());
            proof {
                assert(path@ =~= ext_path_of(n as int));
            }
            Ok(text_of(path.as_slice()))
        },
        None => Err(StoreError::BadId),
    }
}

proof fn lemma_number_has_no_slash(n: int)
    ensures
        forall|i: int| 0 <= i < int_text(n).len() ==> #[trigger] int_text(n)[i] != '/',
{
    crate::numbers::digits_read_back(if n < 0 {
        (-n) as nat
    } else {
        n as nat
    });
    assert forall|i: int| 0 <= i < int_text(n).len() implies #[trigger] int_text(n)[i] != '/' by {
        if n < 0 {
            if i > 0 {
                assert(is_digit(crate::numbers::digits_of((-n) as nat)[i - 1]));
            }
        } else {
            assert(is_digit(crate::numbers::digits_of(n as nat)[i]));
        }
    }
}

/// Two spools have different files for their extended records.
pub proof fn extended_files_differ(a: int, b: int)
    requires
        ext_path_of(a) == ext_path_of(b),
    ensures
        a == b,
{
    let dir = "/store/spools.ext/"@;
    let end = ".jsn"@;
    let fa = int_text(ext_folder(a));
    let fb = int_text(ext_folder(b));
    let ta = fa + seq!['/'] + int_text(a) + end;
    let tb = fb + seq!['/'] + int_text(b) + end;
    assert(ext_path_of(a) =~= dir + ta);
    assert(ext_path_of(b) =~= dir + tb);
    assert(ta =~= (dir + ta).skip(dir.len() as int));
    assert(tb =~= (dir + tb).skip(dir.len() as int));
    assert(ta == tb);
    lemma_number_has_no_slash(ext_folder(a));
    lemma_number_has_no_slash(ext_folder(b));
    assert forall|i: int| 0 <= i < fa.len() implies ta[i] != '/' by {
        assert(ta[i] == int_text(ext_folder(a))[i]);
    }
    assert forall|i: int| 0 <= i < fb.len() implies tb[i] != '/' by {
        assert(tb[i] == int_text(ext_folder(b))[i]);
    }
    assert(ta[fa.len() as int] == '/');
    assert(tb[fb.len() as int] == '/');
    lemma_position_is(ta, '/', fa.len() as int);
    lemma_position_is(tb, '/', fb.len() as int);
    let ra = ta.skip(fa.len() as int + 1);
    let rb = tb.skip(fb.len() as int + 1);
    assert(ra == rb);
    assert(ra =~= int_text(a) + end);
    assert(rb =~= int_text(b) + end);
    assert(int_text(a) =~= ra.take(ra.len() - end.len()));
    assert(int_text(b) =~= rb.take(rb.len() - end.len()));
    number_reads_back(a);
    number_reads_back(b);
}

impl Store {
    /// Everything but the records.
    pub open spec fn same_but_records(self, o: Store) -> bool {
        &&& self.spools_db is Some == o.spools_db is Some
        &&& self.spools_db is Some ==> self.spools_db->0.same_file(o.spools_db->0)
        &&& self.last_spool_id == o.last_spool_id
        &&& self.tag_id_index == o.tag_id_index
        &&& self.initialized == o.initialized
    }

    /// Everything but the index.
    pub open spec fn same_but_index(self, o: Store) -> bool {
        &&& self.spools_db == o.spools_db
        &&& self.last_spool_id == o.last_spool_id
        &&& self.initialized == o.initialized
    }

    /// The records after one was written.
    pub open spec fn records_with(self, record: SpoolRecord, written: Written) -> Map<
        Seq<char>,
        CsvRecordInfo<SpoolRecord>,
    > {
        match written {
            Written::Unchanged => self.records(),
            Written::At { offset, length } => self.records().insert(
                record.id@,
                CsvRecordInfo { data: record, length, offset },
            ),
        }
    }

    /// Enters a record that has been written to the file.
    pub fn record_written(&mut self, record: SpoolRecord, written: Written)
        requires
            old(self).wf(),
            old(self).spools_db is Some,
        ensures
            final(self).wf(),
            final(self).same_but_records(*old(self)),
            final(self).records() == old(self).records_with(record, written),
            old(self).tags_indexed() && old(self).rec(record.id@) is Some && old(self).rec(record.id@)->0.tag_id@
                == record.tag_id@ ==> final(self).tags_indexed(),
            old(self).ids_bounded() && old(self).rec(record.id@) is Some ==> final(self).ids_bounded(),
    {
        if let Written::At { offset, length } = written {
            if let Some(db) = &mut self.spools_db {
                db.complete_insert(record, offset, length);
            }
        }
        proof {
            if old(self).tags_indexed() && old(self).rec(record.id@) is Some && old(self).rec(record.id@)->0.tag_id@
                == record.tag_id@ {
                assert forall|k: Seq<char>| #[trigger]
                    self.records().contains_key(k) && usable(self.records()[k].data.tag_id@) implies self.indexed(
                    self.records()[k].data.tag_id@,
                ) == Some(k) by {
                    assert(old(self).records().contains_key(k));
                }
            }
            if old(self).ids_bounded() && old(self).rec(record.id@) is Some {
                assert forall|k: Seq<char>| #[trigger] self.records().contains_key(k) implies old(
                    self,
                ).records().contains_key(k) by {}
            }
        }
    }

    /// Removes an entry of the index for a spool, if there is one.
    fn unlink(&mut self, id: &str)
        requires
            old(self).wf(),
        ensures
            final(self).wf(),
            final(self).same_but_index(*old(self)),
            final(self).unlinked(*old(self), id@),
    {
        let mut i: usize = 0;
        let n = self.tag_id_index.len();
        while i < n
            invariant
                i <= n,
                n == self.tag_id_index.order().len(),
                *self == *old(self),
                self.wf(),
                forall|j: int|
                    0 <= j < i ==> self.tag_id_index@[#[trigger] self.tag_id_index.order()[j]]@ != id@,
            decreases n - i,
        {
            let entry = self.tag_id_index.value_at(i);
            if same_text(entry.as_str(), id) {
                let tag = self.tag_id_index.key_at(i).clone();
                let ghost before = self.tag_id_index@;
                self.tag_id_index.remove(tag.as_str());
                proof {
                    assert(before.contains_key(tag@) && before[tag@]@ == id@);
                    assert forall|t: Seq<char>| #[trigger] self.tag_id_index@.contains_key(t) implies
                        self.tag_id_index@[t]@.len() > 0 by {
                        assert(before.contains_key(t));
                    }
                }
                return;
            }
            i += 1;
        }
        proof {
            self.tag_id_index.order_is_complete();
            assert forall|t: Seq<char>| #[trigger] self.tag_id_index@.contains_key(t) implies self.tag_id_index@[t]@
                != id@ by {
                assert(self.tag_id_index.order().to_set().contains(t));
                let j = choose|j: int|
                    0 <= j < self.tag_id_index.order().len() && self.tag_id_index.order()[j] == t;
                assert(self.tag_id_index.order()[j] == t);
            }
        }
    }

    /// One entry of the index for a spool is gone, if there was one.
    pub open spec fn unlinked(self, before: Store, id: Seq<char>) -> bool {
        ||| exists|t: Seq<char>| #[trigger]
            before.tag_id_index@.contains_key(t) && before.tag_id_index@[t]@ == id && self.tag_id_index@
                == before.tag_id_index@.remove(t)
        ||| (forall|t: Seq<char>| #[trigger]
            before.tag_id_index@.contains_key(t) ==> before.tag_id_index@[t]@ != id) && self.tag_id_index@
            == before.tag_id_index@
    }

    /// Makes a spool the one that a tag belongs to.
    fn link(&mut self, tag_id: &str, id: &str)
        requires
            old(self).wf(),
            id@.len() > 0,
        ensures
            final(self).wf(),
            final(self).same_but_index(*old(self)),
            final(self).linked(*old(self), tag_id@, id@),
    {
        let ghost before = self.tag_id_index@;
        self.tag_id_index.insert(tag_id.to_string(), id.to_string());
        proof {
            assert forall|t: Seq<char>| #[trigger] self.tag_id_index@.contains_key(t) implies
                self.tag_id_index@[t]@.len() > 0 by {
                if t != tag_id@ {
                    assert(before.contains_key(t));
                }
            }
        }
    }

    /// The index gives a spool for a tag, and is the same for every other tag.
    pub open spec fn linked(self, before: Store, tag: Seq<char>, id: Seq<char>) -> bool {
        forall|t: Seq<char>| #[trigger]
            self.indexed(t) == (if t == tag {
                Some(id)
            } else {
                before.indexed(t)
            })
    }

    /// Plans the deletion of a spool. Nothing is to be done where there is no record
    /// file or no such spool.
    pub fn delete_spool(&self, id: &str) -> (r: Option<DeletePlan>)
        requires
            self.wf(),
            self.rec(id@) is Some ==> self.spools_db->0.record_width >= 1,
        ensures
            r is Some <==> self.rec(id@) is Some,
            r is Some ==> r->0.offset == self.records()[id@].offset && r->0.row@ == crate::csvdb::empty_record(
                self.spools_db->0.record_width as nat,
            ),
    {
        match &self.spools_db {
            Some(db) => db.delete(id),
            None => None,
        }
    }

    /// Removes a spool whose record has been emptied in the file: its record, and the
    /// index entry of its tag. A spool with a tag has a file to be deleted too.
    pub fn spool_deleted(&mut self, id: &str) -> (r: Option<String>)
        requires
            old(self).wf(),
        ensures
            final(self).wf(),
            final(self).records() == old(self).records().remove(id@),
            final(self).spools_db is Some == old(self).spools_db is Some,
            final(self).spools_db is Some ==> final(self).spools_db->0.same_file(old(self).spools_db->0),
            final(self).last_spool_id == old(self).last_spool_id,
            final(self).initialized == old(self).initialized,
            final(self).tag_id_index@ == (match old(self).rec(id@) {
                Some(record) => old(self).tag_id_index@.remove(record.tag_id@),
                None => old(self).tag_id_index@,
            }),
            ({
                let gone = old(self).rec(id@);
                let has_file = gone is Some && gone->0.tag_id@.len() > 0 && ext_path(gone->0.id@) is Some;
                &&& r is Some <==> has_file
                &&& r is Some ==> Some(r->0@) == ext_path(gone->0.id@)
            }),
            old(self).tags_indexed() ==> final(self).tags_indexed(),
            old(self).ids_bounded() ==> final(self).ids_bounded(),
            old(self).links_bounded() ==> final(self).links_bounded(),
    {
        let deleted = match &mut self.spools_db {
            Some(db) => db.complete_delete(id),
            None => None,
        };
        proof {
            assert(self.records() =~= old(self).records().remove(id@));
            assert forall|k: Seq<char>| #[trigger] self.records().contains_key(k) implies old(
                self,
            ).records().contains_key(k) by {}
        }
        match deleted {
            Some(record) => {
                let ghost before = self.tag_id_index@;
                self.tag_id_index.remove(record.tag_id.as_str());
                proof {
                    assert forall|t: Seq<char>| #[trigger] self.tag_id_index@.contains_key(t) implies
                        self.tag_id_index@[t]@.len() > 0 by {
                        assert(before.contains_key(t));
                    }
                    if old(self).tags_indexed() {
                        assert forall|k: Seq<char>| #[trigger]
                            self.records().contains_key(k) && usable(self.records()[k].data.tag_id@) implies
                            self.indexed(self.records()[k].data.tag_id@) == Some(k) by {
                            assert(old(self).records().contains_key(k));
                            assert(old(self).records().contains_key(id@));
                            if self.records()[k].data.tag_id@ == record.tag_id@ {
                                assert(old(self).indexed(record.tag_id@) == Some(id@));
                            }
                        }
                    }
                }
                let tag = chars_of(record.tag_id.as_str());
                if tag.len() > 0 {
                    match spool_rec_ext_file_path(record.id.as_str()) {
                        Ok(path) => Some(path),
                        Err(_) => None,
                    }
                } else {
                    None
                }
            },
            None => {
                proof {
                    assert forall|k: Seq<char>| #[trigger] self.records().contains_key(k) implies old(
                        self,
                    ).records().contains_key(k) by {}
                }
                None
            },
        }
    }
}

proof fn lemma_unlink_bounded(before: Store, after: Store, id: Seq<char>)
    requires
        before.links_bounded(),
        after.unlinked(before, id),
        after.last_spool_id == before.last_spool_id,
    ensures
        after.links_bounded(),
{
    assert forall|t: Seq<char>| #[trigger] after.tag_id_index@.contains_key(t) implies after.id_was_given(
        after.tag_id_index@[t]@,
    ) by {
        assert(before.tag_id_index@.contains_key(t));
        assert(before.id_was_given(before.tag_id_index@[t]@));
    }
}

proof fn lemma_link_bounded(before: Store, after: Store, tag: Seq<char>, id: Seq<char>)
    requires
        before.links_bounded(),
        before.id_was_given(id),
        after.linked(before, tag, id),
        after.last_spool_id == before.last_spool_id,
    ensures
        after.links_bounded(),
{
    assert forall|t: Seq<char>| #[trigger] after.tag_id_index@.contains_key(t) implies after.id_was_given(
        after.tag_id_index@[t]@,
    ) by {
        assert(after.indexed(t) == Some(after.tag_id_index@[t]@));
        if t != tag {
            assert(before.tag_id_index@.contains_key(t));
            assert(before.id_was_given(before.tag_id_index@[t]@));
        }
    }
}

/// `r` is the record of a new spool with an id: as it was given, with the time and word of
/// calibrations.
pub open spec fn is_added(r: SpoolRecord, given: SpoolRecord, id: int, has_k: bool, now: Option<i32>) -> bool {
    &&& r.id@ == int_text(id)
    &&& r == (SpoolRecord { id: r.id, added_time: now, ext_has_k: has_k, ..given })
}

/// The record of a spool after it was edited on the web page.
pub open spec fn edited(current: SpoolRecord, given: SpoolRecord, has_k: bool, now: Option<i32>) -> SpoolRecord {
    SpoolRecord {
        tag_id: current.tag_id,
        weight_new: current.weight_new,
        weight_current: current.weight_current,
        added_time: if current.added_time is Some {
            current.added_time
        } else {
            now
        },
        encode_time: current.encode_time,
        consumed_since_add: current.consumed_since_add,
        consumed_since_weight: current.consumed_since_weight,
        ext_has_k: has_k,
        ..given
    }
}

/// The record with its tag struck out by a dash.
fn struck_out(record: &SpoolRecord) -> (r: SpoolRecord)
    ensures
        is_struck(r, *record),
{
    let mut tag: Vec<char> = Vec::new();
    tag.push('-');
    let rest = chars_of(record.tag_id.as_str());
    append(&mut tag, rest.as_slice());
    proof {
        assert(tag@ =~= seq!['-'] + record.tag_id@);
    }
    let mut r = record.clone();
    r.tag_id = text_of(tag.as_slice());
    r
}

impl Store {
    /// A record can have been found unchanged only where the file holds it.
    pub open spec fn reports(self, record: SpoolRecord, written: Result<Written, CsvDbError>) -> bool {
        written == Ok::<Written, CsvDbError>(Written::Unchanged) ==> self.records().contains_key(record.id@)
            && self.records()[record.id@].data.equals(&record)
    }

    /// Prepares the record of a new spool: it gets the next id, the time, and word of
    /// whether there are calibrations. It is to be written to the record file.
    pub fn add_spool(&self, spool_rec: SpoolRecord, spool_rec_ext: &SpoolRecordExt, now: Option<i32>) -> (r: Result<
        SpoolRecord,
        StoreError,
    >)
        requires
            self.spools_db is Some ==> self.last_spool_id < i32::MAX,
        ensures
            r is Ok <==> self.spools_db is Some,
            r is Err ==> r->Err_0 is NoCsvDb,
            r is Ok ==> {
                &&& r->Ok_0.id@ == int_text(self.last_spool_id + 1)
                &&& r->Ok_0 == (SpoolRecord {
                    id: r->Ok_0.id,
                    added_time: now,
                    ext_has_k: spool_rec_ext.k_info is Some,
                    ..spool_rec
                })
            },
            r is Ok ==> is_added(r->Ok_0, spool_rec, self.last_spool_id + 1, spool_rec_ext.k_info is Some, now),
    {
        if self.spools_db.is_none() {
            return Err(StoreError::NoCsvDb);
        }
        let mut record = spool_rec;
        record.id = int_string((self.last_spool_id + 1) as i64);
        record.added_time = now;
        record.ext_has_k = spool_rec_ext.k_info.is_some();
        Ok(record)
    }

    /// Goes on once the record of a new spool has been written, or could not be: the
    /// id is taken. The result is the spool that has carried the tag so far, struck
    /// out, to be written too.
    pub fn add_spool_inserted(&mut self, record: SpoolRecord, written: Result<Written, CsvDbError>) -> (r: Result<
        Option<SpoolRecord>,
        StoreError,
    >)
        requires
            old(self).wf(),
            old(self).spools_db is Some,
            old(self).last_spool_id < i32::MAX,
            record.id@ == int_text(old(self).last_spool_id + 1),
            old(self).reports(record, written),
        ensures
            final(self).wf(),
            final(self).tag_id_index == old(self).tag_id_index,
            final(self).initialized == old(self).initialized,
            final(self).spools_db is Some,
            final(self).spools_db->0.same_file(old(self).spools_db->0),
            ({
                let known = old(self).records().contains_key(record.id@);
                match written {
                    Err(e) => {
                        &&& *final(self) == *old(self)
                        &&& r is Err
                        &&& r->Err_0 matches StoreError::CsvDbError { source } && source == e
                    },
                    Ok(w) => {
                        &&& final(self).records() == old(self).records_with(record, w)
                        &&& final(self).last_spool_id == (if known {
                            old(self).last_spool_id as int
                        } else {
                            old(self).last_spool_id + 1
                        })
                        &&& r is Ok <==> !known
                        &&& known ==> r->Err_0 is InternalError
                        &&& !known ==> {
                            let holder = if record.tag_id@.len() > 0 {
                                final(self).owner(record.tag_id@)
                            } else {
                                None
                            };
                            match holder {
                                Some(h) => r->Ok_0 is Some && is_struck(r->Ok_0->0, h),
                                None => r->Ok_0 is None,
                            }
                        }
                        &&& !known && old(self).tags_indexed() ==> final(self).tags_indexed_but(
                            record.tag_id@,
                            record.id@,
                        )
                        &&& old(self).ids_bounded() ==> !known && final(self).ids_bounded()
                        &&& old(self).links_bounded() ==> final(self).links_bounded()
                    },
                }
            }),
    {
        proof {
            if self.ids_bounded() {
                new_id_is_unused(*self);
            }
        }
        match written {
            Err(source) => Err(StoreError::CsvDbError { source }),
            Ok(w) => {
                let known = self.get_spool_by_id(record.id.as_str()).is_some();
                let tag_id = record.tag_id.clone();
                self.record_written(record, w);
                if known {
                    return Err(StoreError::InternalError);
                }
                self.last_spool_id = self.last_spool_id + 1;
                proof {
                    if old(self).ids_bounded() {
                        number_reads_back(old(self).last_spool_id + 1);
                        assert forall|k: Seq<char>| #[trigger]
                            self.records().contains_key(k) && parsed(k, i32::MIN as int, i32::MAX as int)
                                is Some implies parsed(k, i32::MIN as int, i32::MAX as int)->0
                            <= self.last_spool_id by {
                            if k != record.id@ {
                                assert(old(self).records().contains_key(k));
                            }
                        }
                    }
                    if old(self).tags_indexed() {
                        assert forall|k: Seq<char>| #[trigger]
                            self.records().contains_key(k) && usable(self.records()[k].data.tag_id@) implies
                            self.indexed(self.records()[k].data.tag_id@) == Some(k) || (k == record.id@
                            && self.records()[k].data.tag_id@ == record.tag_id@) by {
                            if k != record.id@ {
                                assert(old(self).records().contains_key(k));
                            }
                        }
                    }
                }
                let tag = chars_of(tag_id.as_str());
                if tag.len() == 0 {
                    return Ok(None);
                }
                match self.get_spool_by_hex_tag(tag_id.as_str()) {
                    Some(holder) => Ok(Some(struck_out(&holder))),
                    None => Ok(None),
                }
            },
        }
    }

    /// Goes on once the spool that has carried the tag of a new spool so far was
    /// written struck out, or could not be: its index entry goes, and the tag belongs
    /// to the new spool in any case.
    pub fn add_spool_linked(
        &mut self,
        tag_id: &str,
        id: &str,
        struck: Option<Rewritten>,
    ) -> (r: Result<(), StoreError>)
        requires
            old(self).wf(),
            old(self).spools_db is Some,
            id@.len() > 0,
            struck is Some ==> old(self).reports(struck->0.record, struck->0.written),
        ensures
            final(self).wf(),
            final(self).last_spool_id == old(self).last_spool_id,
            final(self).initialized == old(self).initialized,
            final(self).spools_db is Some,
            final(self).spools_db->0.same_file(old(self).spools_db->0),
            tag_id@.len() == 0 ==> *final(self) == *old(self) && r is Ok,
            tag_id@.len() > 0 ==> {
                let failed = struck is Some && struck->0.written is Err;
                &&& r is Err <==> failed
                &&& failed ==> (r->Err_0 matches StoreError::CsvDbError { source } && source == struck->0.written->Err_0)
                &&& final(self).records() == (if struck is Some && !failed {
                    old(self).records_with(struck->0.record, struck->0.written->Ok_0)
                } else {
                    old(self).records()
                })
                &&& final(self).indexed(tag_id@) == Some(id@)
                &&& if struck is Some && !failed {
                    exists|mid: Store| #[trigger]
                        mid.unlinked(*old(self), struck->0.record.id@) && final(self).linked(mid, tag_id@, id@)
                } else {
                    final(self).linked(*old(self), tag_id@, id@)
                }
            },
            old(self).ids_bounded() && (struck is Some ==> old(self).rec(struck->0.record.id@) is Some)
                ==> final(self).ids_bounded(),
            old(self).links_bounded() && old(self).id_was_given(id@) ==> final(self).links_bounded(),
            ({
                let holder = old(self).indexed(tag_id@);
                let replaced = match struck {
                    Some(s) => s.written is Ok && Some(s.record.id@) == holder && !usable(s.record.tag_id@),
                    None => tag_id@.len() == 0 || old(self).owner(tag_id@) is None,
                };
                old(self).tags_indexed_but(tag_id@, id@) && old(self).rec(id@) is Some && old(self).rec(
                    id@,
                )->0.tag_id@ == tag_id@ && replaced && (usable(tag_id@) ==> holder != Some(id@))
                    ==> final(self).tags_indexed()
            }),
    {
        let tag = chars_of(tag_id);
        if tag.len() == 0 {
            return Ok(());
        }
        let mut r: Result<(), StoreError> = Ok(());
        let ghost mut mid = *self;
        let ghost given = struck;
        match struck {
            Some(Rewritten { record, written }) => match written {
                Ok(w) => {
                    let struck_id = record.id.clone();
                    self.record_written(record, w);
                    let ghost before = *self;
                    self.unlink(struck_id.as_str());
                    proof {
                        mid = *self;
                        assert(mid.unlinked(before, record.id@));
                        assert(mid.unlinked(*old(self), record.id@));
                    }
                    self.link(tag_id, id);
                    proof {
                        assert(self.linked(mid, tag_id@, id@));
                        if old(self).links_bounded() {
                            lemma_unlink_bounded(*old(self), mid, record.id@);
                        }
                    }
                },
                Err(source) => {
                    self.link(tag_id, id);
                    r = Err(StoreError::CsvDbError { source });
                },
            },
            None => {
                self.link(tag_id, id);
            },
        }
        proof {
            if old(self).links_bounded() && old(self).id_was_given(id@) {
                lemma_link_bounded(mid, *self, tag_id@, id@);
            }
            let holder = old(self).indexed(tag_id@);
            let replaced = match given {
                Some(s) => s.written is Ok && Some(s.record.id@) == holder && !usable(s.record.tag_id@),
                None => old(self).owner(tag_id@) is None,
            };
            if old(self).tags_indexed_but(tag_id@, id@) && old(self).rec(id@) is Some && old(self).rec(
                id@,
            )->0.tag_id@ == tag_id@ && replaced && (usable(tag_id@) ==> holder != Some(id@)) {
                assert forall|k: Seq<char>| #[trigger]
                    self.records().contains_key(k) && usable(self.records()[k].data.tag_id@) implies self.indexed(
                    self.records()[k].data.tag_id@,
                ) == Some(k) by {
                    let t = self.records()[k].data.tag_id@;
                    assert(old(self).records().contains_key(k));
                    if given is Some && k == given->0.record.id@ {
                        assert(false);
                    } else if t == tag_id@ && k != id@ {
                        assert(old(self).indexed(t) == Some(k));
                        assert(false);
                    }
                }
            }
        }
        r
    }

    /// What adding a spool comes to: an extended record that could not be written is
    /// reported first, then a tag that could not be struck out.
    pub fn add_spool_result(id: &str, stored_ext: Result<(), StoreError>, linked: Result<(), StoreError>) -> (r: Result<
        String,
        StoreError,
    >)
        ensures
            r is Ok <==> stored_ext is Ok && linked is Ok,
            r is Ok ==> r->Ok_0@ == id@,
            stored_ext is Err ==> r == Err::<String, StoreError>(stored_ext->Err_0),
            stored_ext is Ok && linked is Err ==> r == Err::<String, StoreError>(linked->Err_0),
    {
        match stored_ext {
            Err(e) => Err(e),
            Ok(()) => match linked {
                Err(e) => Err(e),
                Ok(()) => Ok(id.to_string()),
            },
        }
    }
}

impl Store {
    /// Whether a spool can be updated: the record file is open, and the record has an
    /// id that the file knows.
    pub fn update_spool(&self, spool_record: &SpoolRecord) -> (r: Result<(), StoreError>)
        requires
            self.wf(),
        ensures
            r is Ok <==> self.spools_db is Some && spool_record.id@.len() > 0 && self.rec(spool_record.id@) is Some,
            self.spools_db is None ==> r is Err && r->Err_0 is NoCsvDb,
            self.spools_db is Some && spool_record.id@.len() == 0 ==> r is Err && r->Err_0 is MissingId,
            self.spools_db is Some && spool_record.id@.len() > 0 && self.rec(spool_record.id@) is None ==> r is Err
                && r->Err_0 is IdNotFound,
    {
        if self.spools_db.is_none() {
            return Err(StoreError::NoCsvDb);
        }
        let id = chars_of(spool_record.id.as_str());
        if id.len() == 0 {
            return Err(StoreError::MissingId);
        }
        if self.get_spool_by_id(spool_record.id.as_str()).is_none() {
            return Err(StoreError::IdNotFound);
        }
        Ok(())
    }

    /// The record of a spool whose extended record was changed: it knows whether there
    /// are calibrations.
    pub fn with_ext(spool_record: SpoolRecord, spool_rec_ext: &SpoolRecordExt) -> (r: SpoolRecord)
        ensures
            r == (SpoolRecord { ext_has_k: spool_rec_ext.k_info is Some, ..spool_record }),
    {
        let mut r = spool_record;
        r.ext_has_k = spool_rec_ext.k_info.is_some();
        r
    }

    /// Goes on once the record of an updated spool has been written, or could not be.
    /// A usable tag belongs to the spool from now on, except that another spool that
    /// carries it is first to be written as returned, struck out. Without a usable
    /// tag the spool leaves the index.
    pub fn update_spool_written(&mut self, record: SpoolRecord, written: Result<Written, CsvDbError>) -> (r: Result<
        Option<SpoolRecord>,
        StoreError,
    >)
        requires
            old(self).wf(),
            old(self).spools_db is Some,
            record.id@.len() > 0,
            old(self).reports(record, written),
        ensures
            final(self).wf(),
            final(self).last_spool_id == old(self).last_spool_id,
            final(self).initialized == old(self).initialized,
            final(self).spools_db is Some,
            final(self).spools_db->0.same_file(old(self).spools_db->0),
            match written {
                Err(e) => {
                    &&& *final(self) == *old(self)
                    &&& r is Err
                    &&& r->Err_0 matches StoreError::CsvDbError { source } && source == e
                },
                Ok(w) => {
                    &&& r is Ok
                    &&& final(self).records() == old(self).records_with(record, w)
                    &&& !usable(record.tag_id@) ==> r->Ok_0 is None && final(self).unlinked(*old(self), record.id@)
                    &&& usable(record.tag_id@) ==> match final(self).other_holder_by(*old(self), record) {
                        Some(h) => {
                            &&& r->Ok_0 is Some
                            &&& is_struck(r->Ok_0->0, h)
                            &&& final(self).tag_id_index == old(self).tag_id_index
                        },
                        None => {
                            &&& r->Ok_0 is None
                            &&& final(self).linked(*old(self), record.tag_id@, record.id@)
                        },
                    }
                    &&& old(self).tags_indexed() ==> (if r->Ok_0 is Some {
                        final(self).tags_indexed_but(record.tag_id@, record.id@)
                    } else {
                        final(self).tags_indexed()
                    })
                    &&& old(self).ids_bounded() && old(self).rec(record.id@) is Some ==> final(self).ids_bounded()
                    &&& old(self).links_bounded() && old(self).id_was_given(record.id@) ==> final(self).links_bounded()
                },
            },
    {
        match written {
            Err(source) => Err(StoreError::CsvDbError { source }),
            Ok(w) => {
                let tag_id = record.tag_id.clone();
                let id = record.id.clone();
                self.record_written(record, w);
                let ghost mid = *self;
                proof {
                    if old(self).tags_indexed() {
                        assert forall|k: Seq<char>| #[trigger]
                            mid.records().contains_key(k) && usable(mid.records()[k].data.tag_id@) implies mid.indexed(
                            mid.records()[k].data.tag_id@,
                        ) == Some(k) || (k == record.id@ && mid.records()[k].data.tag_id@ == record.tag_id@) by {
                            if k != record.id@ {
                                assert(old(self).records().contains_key(k));
                            }
                        }
                    }
                }
                let tag = chars_of(tag_id.as_str());
                if tag.len() > 0 && tag[0] != '-' {
                    if let Some(holder) = self.get_spool_by_hex_tag(tag_id.as_str()) {
                        if !same_text(holder.id.as_str(), id.as_str()) {
                            return Ok(Some(struck_out(&holder)));
                        }
                    }
                    self.link(tag_id.as_str(), id.as_str());
                    proof {
                        if old(self).links_bounded() && old(self).id_was_given(record.id@) {
                            lemma_link_bounded(mid, *self, record.tag_id@, record.id@);
                        }
                        if old(self).tags_indexed() {
                            assert forall|k: Seq<char>| #[trigger]
                                self.records().contains_key(k) && usable(self.records()[k].data.tag_id@) implies
                                self.indexed(self.records()[k].data.tag_id@) == Some(k) by {
                                assert(mid.records().contains_key(k));
                                if k != record.id@ {
                                    let t = self.records()[k].data.tag_id@;
                                    if t == record.tag_id@ {
                                        assert(mid.owner(t) == Some(mid.records()[k].data));
                                    }
                                }
                            }
                        }
                    }
                    Ok(None)
                } else {
                    self.unlink(id.as_str());
                    proof {
                        assert(self.unlinked(*old(self), record.id@));
                        if old(self).links_bounded() {
                            lemma_unlink_bounded(*old(self), *self, record.id@);
                        }
                        if old(self).tags_indexed() {
                            assert forall|k: Seq<char>| #[trigger]
                                self.records().contains_key(k) && usable(self.records()[k].data.tag_id@) implies
                                self.indexed(self.records()[k].data.tag_id@) == Some(k) by {
                                assert(mid.records().contains_key(k));
                                assert(k != record.id@);
                            }
                        }
                    }
                    Ok(None)
                }
            },
        }
    }

    /// The other spool that carries the tag of `record` by the index before.
    pub open spec fn other_holder_by(self, before: Store, record: SpoolRecord) -> Option<SpoolRecord> {
        match before.indexed(record.tag_id@) {
            Some(id) => if self.records().contains_key(id) && id != record.id@ {
                Some(self.records()[id].data)
            } else {
                None
            },
            None => None,
        }
    }

    /// Goes on once the other spool that carried the tag of an updated spool was written
    /// struck out, or could not be: the tag belongs to the updated spool, unless the
    /// other could not be written.
    pub fn update_spool_struck(&mut self, struck: Rewritten, tag_id: &str, id: &str) -> (r: Result<(), StoreError>)
        requires
            old(self).wf(),
            old(self).spools_db is Some,
            id@.len() > 0,
            old(self).reports(struck.record, struck.written),
        ensures
            final(self).wf(),
            final(self).last_spool_id == old(self).last_spool_id,
            final(self).initialized == old(self).initialized,
            final(self).spools_db is Some,
            final(self).spools_db->0.same_file(old(self).spools_db->0),
            match struck.written {
                Err(e) => {
                    &&& *final(self) == *old(self)
                    &&& r is Err
                    &&& r->Err_0 matches StoreError::CsvDbError { source } && source == e
                },
                Ok(w) => {
                    &&& r is Ok
                    &&& final(self).records() == old(self).records_with(struck.record, w)
                    &&& final(self).linked(*old(self), tag_id@, id@)
                    &&& old(self).tags_indexed_but(tag_id@, id@) && old(self).rec(id@) is Some && old(self).rec(
                        id@,
                    )->0.tag_id@ == tag_id@ && !usable(struck.record.tag_id@) && old(self).indexed(tag_id@) == Some(
                        struck.record.id@,
                    ) && struck.record.id@ != id@ ==> final(self).tags_indexed()
                    &&& old(self).ids_bounded() && old(self).rec(struck.record.id@) is Some ==> final(self).ids_bounded()
                    &&& old(self).links_bounded() && old(self).id_was_given(id@) ==> final(self).links_bounded()
                },
            },
    {
        match struck.written {
            Err(source) => Err(StoreError::CsvDbError { source }),
            Ok(w) => {
                let ghost record = struck.record;
                self.record_written(struck.record, w);
                let ghost mid = *self;
                self.link(tag_id, id);
                proof {
                    if old(self).links_bounded() && old(self).id_was_given(id@) {
                        lemma_link_bounded(mid, *self, tag_id@, id@);
                    }
                    if old(self).tags_indexed_but(tag_id@, id@) && old(self).rec(id@) is Some && old(self).rec(
                        id@,
                    )->0.tag_id@ == tag_id@ && !usable(record.tag_id@) && old(self).indexed(tag_id@) == Some(
                        record.id@,
                    ) && record.id@ != id@ {
                        assert forall|k: Seq<char>| #[trigger]
                            self.records().contains_key(k) && usable(self.records()[k].data.tag_id@) implies
                            self.indexed(self.records()[k].data.tag_id@) == Some(k) by {
                            let t = self.records()[k].data.tag_id@;
                            assert(k != record.id@);
                            assert(old(self).records().contains_key(k));
                            if t == tag_id@ && k != id@ {
                                assert(old(self).indexed(t) == Some(k));
                            }
                        }
                    }
                }
                Ok(())
            },
        }
    }

    /// The record of a spool after it was edited on the web page: tag, weights on the
    /// scale, time of encoding and consumption cannot be edited there, and a record
    /// without the time it was added gets the time now. It is to be written.
    pub fn edit_spool_from_web(&self, spool_record: SpoolRecord, has_k: bool, now: Option<i32>) -> (r: Result<
        SpoolRecord,
        StoreError,
    >)
        requires
            self.wf(),
        ensures
            r is Ok <==> self.rec(spool_record.id@) is Some,
            self.spools_db is None ==> r is Err && r->Err_0 is NoCsvDb,
            self.spools_db is Some && self.rec(spool_record.id@) is None ==> r is Err && (
            r->Err_0 matches StoreError::NotFound { id } && id@ == spool_record.id@),
            r is Ok ==> {
                let current = self.rec(spool_record.id@)->0;
                r->Ok_0 == (SpoolRecord {
                    tag_id: current.tag_id,
                    weight_new: current.weight_new,
                    weight_current: current.weight_current,
                    added_time: match current.added_time {
                        Some(t) => Some(t),
                        None => now,
                    },
                    encode_time: current.encode_time,
                    consumed_since_add: current.consumed_since_add,
                    consumed_since_weight: current.consumed_since_weight,
                    ext_has_k: has_k,
                    ..spool_record
                })
            },
            r is Ok ==> r->Ok_0 == edited(self.rec(spool_record.id@)->0, spool_record, has_k, now),
    {
        if self.spools_db.is_none() {
            return Err(StoreError::NoCsvDb);
        }
        match self.get_spool_by_id(spool_record.id.as_str()) {
            None => Err(StoreError::NotFound { id: spool_record.id.clone() }),
            Some(current) => {
                let mut r = spool_record;
                r.tag_id = current.tag_id;
                r.weight_new = current.weight_new;
                r.weight_current = current.weight_current;
                r.added_time = match current.added_time {
                    Some(t) => Some(t),
                    None => now,
                };
                r.encode_time = current.encode_time;
                r.consumed_since_add = current.consumed_since_add;
                r.consumed_since_weight = current.consumed_since_weight;
                r.ext_has_k = has_k;
                Ok(r)
            },
        }
    }

    /// The extended record of a spool that was edited on the web page: what was read of
    /// it, or an empty one, with the calibrations of the page.
    pub fn edited_ext(read: Result<SpoolRecordExt, StoreError>, k_info: Option<KInfo>) -> (r: SpoolRecordExt)
        ensures
            r.k_info == k_info,
            r.tag == (match read {
                Ok(ext) => ext.tag,
                Err(_) => None,
            }),
    {
        let tag = match read {
            Ok(ext) => ext.tag,
            Err(_) => None,
        };
        SpoolRecordExt { tag, k_info }
    }
}

/// The version of the store that this library reads and writes.
pub open spec fn store_version() -> Seq<char> {
    "1.1.0"@
}

/// The version that is written into the description of a record file that was brought
/// up to date.
pub fn current_store_version() -> (r: String)
    ensures
        r@ == store_version(),
{
    "1.1.0".to_string()
}

/// Whether a text is a version in the sense of semantic versioning.
pub uninterp spec fn is_version(text: Seq<char>) -> bool;

/// Whether a version comes before another in the order of semantic versioning.
pub uninterp spec fn version_before(a: Seq<char>, b: Seq<char>) -> bool;

/// One digit each for major, minor and patch.
pub open spec fn short_version(s: Seq<char>) -> bool {
    s.len() == 5 && is_digit(s[0]) && s[1] == '.' && is_digit(s[2]) && s[3] == '.' && is_digit(s[4])
}

/// Of two versions of three single digits, the one comes first whose first differing
/// digit is smaller.
pub open spec fn digits_before(a: Seq<char>, b: Seq<char>) -> bool {
    a[0] < b[0] || (a[0] == b[0] && (a[2] < b[2] || (a[2] == b[2] && a[4] < b[4])))
}

/// `semver::Version::parse` accepts the versions of semantic versioning, among them
/// every one of three single digits.
#[verifier::external_body]
fn parses_as_version(text: &str) -> (r: bool)
    ensures
        r == is_version(text@),
        short_version(text@) ==> r,
{
    semver::Version::parse(text).is_ok()
}

/// `<` on `semver::Version` is the order of versions. Versions of three single digits
/// are ordered by their digits, from the first on.
#[verifier::external_body]
fn comes_before(a: &str, b: &str) -> (r: bool)
    requires
        is_version(a@),
        is_version(b@),
    ensures
        r == version_before(a@, b@),
        short_version(a@) && short_version(b@) ==> r == digits_before(a@, b@),
{
    semver::Version::parse(a).unwrap() < semver::Version::parse(b).unwrap()
}

/// The spool counts when the store is opened: its id is a number.
pub open spec fn counts(db: CsvDb<SpoolRecord>, k: Seq<char>) -> bool {
    db.records@.contains_key(k) && parsed(k, i32::MIN as int, i32::MAX as int) is Some
}

/// What is to be done with a record file, by its version.
#[derive(Clone, Copy, Debug, PartialEq, Eq, Structural)]
pub enum Opening {
    /// The version is none.
    Unparsable,
    /// The file is of a later version and cannot be used.
    TooNew,
    /// The file can be used as it is.
    Current,
    /// The file can be used once it is brought up to date.
    Upgrade,
}

/// What is to be done, by how the file's version compares.
pub open spec fn opening(parses: bool, newer: bool, older: bool) -> Opening {
    if !parses {
        Opening::Unparsable
    } else if newer {
        Opening::TooNew
    } else if older {
        Opening::Upgrade
    } else {
        Opening::Current
    }
}

/// The version that a file says it has; the first one wrote a single digit.
pub open spec fn full_version(version: Seq<char>) -> Seq<char> {
    if version == "1"@ {
        "1.0.0"@
    } else {
        version
    }
}

/// Decides what is to be done with a record file, by how its version compares.
pub fn decide_opening(parses: bool, newer: bool, older: bool) -> (r: Opening)
    ensures
        r == opening(parses, newer, older),
{
    if !parses {
        Opening::Unparsable
    } else if newer {
        Opening::TooNew
    } else if older {
        Opening::Upgrade
    } else {
        Opening::Current
    }
}

/// What becomes of a record file that has been opened.
#[derive(Clone, Copy, Debug, PartialEq, Eq, Structural)]
pub struct Availability {
    /// The store works on the file.
    pub in_use: bool,
    /// The spools in the file are counted and their tags indexed.
    pub available: bool,
}

/// Decides what becomes of a record file. One that was to be brought up to date and
/// could not be stays in use, but its spools do not count.
pub fn availability(opening: Opening, upgraded: bool) -> (r: Availability)
    ensures
        r.in_use == (opening == Opening::Current || opening == Opening::Upgrade),
        r.available == (opening == Opening::Current || (opening == Opening::Upgrade && upgraded)),
{
    match opening {
        Opening::Unparsable | Opening::TooNew => Availability { in_use: false, available: false },
        Opening::Current => Availability { in_use: true, available: true },
        Opening::Upgrade => Availability { in_use: true, available: upgraded },
    }
}

/// Decides what is to be done with a record file of a version.
pub fn check_version(db_version: &str) -> (r: Opening)
    ensures
        ({
            let version = full_version(db_version@);
            r == opening(
                is_version(version),
                version_before(store_version(), version),
                version_before(version, store_version()),
            )
        }),
        ({
            let version = full_version(db_version@);
            short_version(version) ==> r == opening(
                true,
                digits_before(store_version(), version),
                digits_before(version, store_version()),
            )
        }),
{
    proof {
        reveal_strlit("1.1.0");
    }
    let version = if same_text(db_version, "1") { "1.0.0" } else { db_version };
    let known = parses_as_version("1.1.0");
    if !parses_as_version(version) {
        return decide_opening(false, false, false);
    }
    decide_opening(true, comes_before("1.1.0", version), comes_before(version, "1.1.0"))
}

impl Store {
    /// Completes the opening of the store. Where the record file is available, the tags
    /// of its spools are indexed and the largest id is found; ids that are no numbers
    /// do not count. Of spools with one tag any may be the one that is indexed.
    pub fn finish_opening(&mut self, available: bool)
        requires
            old(self).wf(),
        ensures
            final(self).wf(),
            final(self).spools_db == old(self).spools_db,
            final(self).initialized,
            !available || old(self).spools_db is None ==> final(self).last_spool_id == 0 && final(self).tag_id_index
                == old(self).tag_id_index,
            available && old(self).spools_db is Some ==> {
                &&& final(self).ids_bounded()
                &&& (forall|t: Seq<char>| #[trigger] old(self).indexed(t) is None) ==> final(self).links_bounded()
                &&& final(self).last_spool_id >= 0
                &&& forall|k: Seq<char>| #[trigger]
                    counts(old(self).spools_db->0, k) ==> parsed(k, i32::MIN as int, i32::MAX as int)->0
                        <= final(self).last_spool_id
                &&& final(self).last_spool_id > 0 ==> exists|k: Seq<char>| #[trigger]
                    counts(old(self).spools_db->0, k) && parsed(k, i32::MIN as int, i32::MAX as int)->0
                        == final(self).last_spool_id
                &&& forall|k: Seq<char>| #[trigger]
                    counts(old(self).spools_db->0, k) && usable(old(self).records()[k].data.tag_id@) ==> final(self).indexed(
                        old(self).records()[k].data.tag_id@,
                    ) is Some
                &&& forall|t: Seq<char>| #[trigger]
                    final(self).indexed(t) != old(self).indexed(t) ==> {
                        let id = final(self).indexed(t);
                        &&& id is Some
                        &&& counts(old(self).spools_db->0, id->0)
                        &&& usable(t)
                        &&& old(self).records()[id->0].data.tag_id@ == t
                    }
            },
    {
        let mut largest: i32 = 0;
        if available && self.spools_db.is_some() {
            let n = match &self.spools_db {
                Some(db) => db.records.len(),
                None => 0,
            };
            let mut i: usize = 0;
            while i < n
                invariant
                    i <= n,
                    self.wf(),
                    self.spools_db == old(self).spools_db,
                    self.spools_db is Some,
                    n == self.spools_db->0.records.order().len(),
                    largest >= 0,
                    forall|j: int|
                        0 <= j < i && counts(self.spools_db->0, #[trigger] self.spools_db->0.records.order()[j]) ==> parsed(
                            self.spools_db->0.records.order()[j],
                            i32::MIN as int,
                            i32::MAX as int,
                        )->0 <= largest,
                    largest > 0 ==> exists|k: Seq<char>| #[trigger]
                        counts(self.spools_db->0, k) && parsed(k, i32::MIN as int, i32::MAX as int)->0 == largest,
                    forall|j: int|
                        0 <= j < i && counts(self.spools_db->0, #[trigger] self.spools_db->0.records.order()[j]) && usable(
                            self.records()[self.spools_db->0.records.order()[j]].data.tag_id@,
                        ) ==> self.indexed(self.records()[self.spools_db->0.records.order()[j]].data.tag_id@) is Some,
                    forall|t: Seq<char>| #[trigger]
                        self.indexed(t) != old(self).indexed(t) ==> {
                            let id = self.indexed(t);
                            &&& id is Some
                            &&& counts(self.spools_db->0, id->0)
                            &&& usable(t)
                            &&& self.records()[id->0].data.tag_id@ == t
                        },
                decreases n - i,
            {
                let record = match &self.spools_db {
                    Some(db) => db.records.value_at(i).data.clone(),
                    None => SpoolRecord::default(),
                };
                let ghost order = self.spools_db->0.records.order();
                let ghost before = *self;
                proof {
                    assert(self.records().contains_key(order[i as int]));
                    assert(self.records()[order[i as int]].data == record);
                    assert(record.id@ == order[i as int]);
                }
                let id = chars_of(record.id.as_str());
                if let Some(number) = parse_i32(id.as_slice()) {
                    proof {
                        assert(record.id@.len() > 0);
                        assert(counts(self.spools_db->0, order[i as int]));
                    }
                    let tag = chars_of(record.tag_id.as_str());
                    if tag.len() > 0 && tag[0] != '-' {
                        self.link(record.tag_id.as_str(), record.id.as_str());
                        proof {
                            assert forall|j: int|
                                0 <= j < i + 1 && counts(self.spools_db->0, #[trigger] order[j]) && usable(
                                    self.records()[order[j]].data.tag_id@,
                                ) implies self.indexed(self.records()[order[j]].data.tag_id@) is Some by {
                                if j < i {
                                    assert(before.indexed(self.records()[order[j]].data.tag_id@) is Some);
                                }
                            }
                            assert forall|t: Seq<char>| #[trigger] self.indexed(t) != old(self).indexed(t) implies {
                                let id = self.indexed(t);
                                &&& id is Some
                                &&& counts(self.spools_db->0, id->0)
                                &&& usable(t)
                                &&& self.records()[id->0].data.tag_id@ == t
                            } by {
                                if t != record.tag_id@ {
                                    assert(before.indexed(t) != old(self).indexed(t));
                                }
                            }
                        }
                    }
                    if number > largest {
                        largest = number;
                        proof {
                            assert(counts(self.spools_db->0, order[i as int]));
                        }
                    }
                }
                i += 1;
            }
            proof {
                let db = self.spools_db->0;
                db.records.order_is_complete();
                let order = db.records.order();
                assert forall|k: Seq<char>| #[trigger] counts(db, k) implies parsed(
                    k,
                    i32::MIN as int,
                    i32::MAX as int,
                )->0 <= largest && (usable(self.records()[k].data.tag_id@) ==> self.indexed(
                    self.records()[k].data.tag_id@,
                ) is Some) by {
                    assert(order.to_set().contains(k));
                    let j = choose|j: int| 0 <= j < order.len() && order[j] == k;
                    assert(counts(db, order[j]));
                }
            }
        }
        let ghost indexed = *self;
        self.last_spool_id = largest;
        self.initialized = true;
        proof {
            assert forall|t: Seq<char>| #[trigger] self.indexed(t) == indexed.indexed(t) by {}
            if available && self.spools_db is Some {
                assert forall|k: Seq<char>| #[trigger]
                    self.records().contains_key(k) && parsed(k, i32::MIN as int, i32::MAX as int) is Some implies parsed(
                    k,
                    i32::MIN as int,
                    i32::MAX as int,
                )->0 <= self.last_spool_id by {
                    assert(counts(self.spools_db->0, k));
                }
                if forall|t: Seq<char>| #[trigger] old(self).indexed(t) is None {
                    assert forall|t: Seq<char>| #[trigger] self.tag_id_index@.contains_key(t) implies self.id_was_given(
                        self.tag_id_index@[t]@,
                    ) by {
                        assert(old(self).indexed(t) is None);
                        assert(self.indexed(t) != old(self).indexed(t));
                        assert(counts(self.spools_db->0, self.tag_id_index@[t]@));
                    }
                }
            }
        }
    }

    /// The spools whose extended records are to be brought up to date: all of them.
    pub fn upgrade_versions(&self) -> (r: Vec<String>)
        requires
            self.wf(),
        ensures
            self.spools_db is None ==> r@.len() == 0,
            self.spools_db is Some ==> texts(r@) == self.spools_db->0.records.order(),
    {
        let mut ids: Vec<String> = Vec::new();
        if let Some(db) = &self.spools_db {
            let n = db.records.len();
            let mut i: usize = 0;
            proof {
                assert(texts(ids@) =~= db.records.order().take(0));
            }
            while i < n
                invariant
                    i <= n,
                    db.records.wf(),
                    n == db.records.order().len(),
                    texts(ids@) == db.records.order().take(i as int),
                decreases n - i,
            {
                let id = db.records.key_at(i).clone();
                let ghost before = ids@;
                ids.push(id);
                proof {
                    assert(texts(ids@) =~= texts(before).push(id@));
                    assert(db.records.order().take(i + 1) =~= db.records.order().take(i as int).push(id@));
                }
                i += 1;
            }
            proof {
                assert(db.records.order().take(n as int) =~= db.records.order());
            }
        }
        ids
    }

    /// The extended record of a spool for the current version: what was read of it, or an
    /// empty one, with the calibrations of an old tag where there are any.
    pub fn upgraded_ext(read: Option<SpoolRecordExt>, k_info: Option<KInfo>) -> (r: SpoolRecordExt)
        ensures
            r.tag == (match read {
                Some(ext) => ext.tag,
                None => None,
            }),
            k_info is Some ==> r.k_info == k_info,
            k_info is None ==> r.k_info == (match read {
                Some(ext) => ext.k_info,
                None => None,
            }),
    {
        let mut r = match read {
            Some(ext) => ext,
            None => SpoolRecordExt::default(),
        };
        if k_info.is_some() {
            r.k_info = k_info;
        }
        r
    }

    /// Notes on a spool whose extended record was brought up to date whether there are
    /// calibrations. The record file is to be written as a whole afterwards.
    pub fn spool_upgraded(&mut self, id: &str, has_k: bool)
        requires
            old(self).wf(),
            old(self).rec(id@) is Some,
        ensures
            final(self).wf(),
            final(self).same_but_records(*old(self)),
            final(self).records() == old(self).records().insert(
                id@,
                CsvRecordInfo {
                    data: SpoolRecord { ext_has_k: has_k, ..old(self).records()[id@].data },
                    ..old(self).records()[id@]
                },
            ),
            old(self).tags_indexed() ==> final(self).tags_indexed(),
    {
        let mut place: Option<(u32, usize)> = None;
        if let Some(db) = &self.spools_db {
            if let Some(info) = db.records.get(id) {
                place = Some((info.offset, info.length));
            }
        }
        if let Some(mut record) = self.get_spool_by_id(id) {
            record.ext_has_k = has_k;
            if let Some((offset, length)) = place {
                self.record_written(record, Written::At { offset, length });
            }
        }
    }
}

/// Opening a store whose tags are all different and whose ids are all numbers gives
/// every spool its tag in the index.
pub proof fn opening_indexes_every_tag(before: Store, after: Store)
    requires
        before.wf(),
        after.wf(),
        before.spools_db is Some,
        after.spools_db == before.spools_db,
        forall|t: Seq<char>| #[trigger] before.indexed(t) is None,
        forall|k: Seq<char>| #[trigger] before.records().contains_key(k) ==> counts(before.spools_db->0, k),
        forall|j: Seq<char>, k: Seq<char>|
            (#[trigger] counts(before.spools_db->0, j)) && (#[trigger] counts(before.spools_db->0, k)) && usable(
                before.records()[j].data.tag_id@,
            ) && before.records()[j].data.tag_id@ == before.records()[k].data.tag_id@ ==> j == k,
        forall|k: Seq<char>| #[trigger]
            counts(before.spools_db->0, k) && usable(before.records()[k].data.tag_id@) ==> after.indexed(
                before.records()[k].data.tag_id@,
            ) is Some,
        forall|t: Seq<char>| #[trigger]
            after.indexed(t) != before.indexed(t) ==> {
                let id = after.indexed(t);
                &&& id is Some
                &&& counts(before.spools_db->0, id->0)
                &&& usable(t)
                &&& before.records()[id->0].data.tag_id@ == t
            },
    ensures
        after.tags_indexed(),
{
    assert forall|k: Seq<char>| #[trigger]
        after.records().contains_key(k) && usable(after.records()[k].data.tag_id@) implies after.indexed(
        after.records()[k].data.tag_id@,
    ) == Some(k) by {
        let t = after.records()[k].data.tag_id@;
        assert(before.records().contains_key(k));
        assert(counts(before.spools_db->0, k));
        assert(before.indexed(t) is None);
        assert(after.indexed(t) != before.indexed(t));
    }
}

/// No tag identifies two spools.
pub proof fn tag_identifies_one_spool(store: Store, a: Seq<char>, b: Seq<char>)
    requires
        store.tags_indexed(),
        store.rec(a) is Some,
        store.rec(b) is Some,
        usable(store.rec(a)->0.tag_id@),
        store.rec(a)->0.tag_id@ == store.rec(b)->0.tag_id@,
    ensures
        a == b,
        store.owner(store.rec(a)->0.tag_id@) == store.rec(a),
{
    assert(store.records().contains_key(a));
    assert(store.records().contains_key(b));
}

/// The next id belongs to no spool yet.
pub proof fn new_id_is_unused(store: Store)
    requires
        store.ids_bounded(),
        store.last_spool_id < i32::MAX,
    ensures
        !store.records().contains_key(int_text(store.last_spool_id + 1)),
{
    number_reads_back(store.last_spool_id + 1);
}

/// A spool that was written and linked to its tag is found by it.
pub proof fn linked_spool_is_found(before: Store, after: Store, record: SpoolRecord, offset: u32, length: usize)
    requires
        after.records() == before.records_with(record, Written::At { offset, length }),
        after.linked(before, record.tag_id@, record.id@),
    ensures
        after.owner(record.tag_id@) == Some(record),
        after.rec(record.id@) == Some(record),
{
    assert(after.indexed(record.tag_id@) == Some(record.id@));
}

/// What `struck` says was written: the spool that a tag belonged to, struck out; nothing
/// where there is none.
pub open spec fn strikes(store: Store, holder: Option<SpoolRecord>, struck: Option<Rewritten>) -> bool {
    match holder {
        Some(h) => {
            &&& struck is Some
            &&& is_struck(struck->0.record, h)
            &&& struck->0.written is Ok
            &&& store.reports(struck->0.record, struck->0.written)
        },
        None => struck is None,
    }
}

/// The records once the spool that a tag belonged to was written struck out.
pub open spec fn records_struck(store: Store, struck: Option<Rewritten>) -> Map<Seq<char>, CsvRecordInfo<SpoolRecord>> {
    match struck {
        Some(s) => store.records_with(s.record, s.written->Ok_0),
        None => store.records(),
    }
}

/// A record with its tag struck out is another one, and has no usable tag.
proof fn lemma_struck(store: Store, holder: SpoolRecord, struck: Rewritten)
    requires
        store.wf(),
        store.rec(holder.id@) == Some(holder),
        strikes(store, Some(holder), Some(struck)),
    ensures
        struck.record.id@ == holder.id@,
        !usable(struck.record.tag_id@),
        records_struck(store, Some(struck)).dom() == store.records().dom(),
        records_struck(store, Some(struck))[holder.id@].data == struck.record,
        forall|k: Seq<char>|
            k != holder.id@ && store.records().contains_key(k) ==> #[trigger] records_struck(store, Some(struck))[k]
                == store.records()[k],
{
    assert(struck.record.tag_id@.len() == holder.tag_id@.len() + 1);
    assert(struck.record.tag_id@[0] == '-');
    assert(!holder.equals(&struck.record));
    assert(struck.written->Ok_0 is At);
    assert(records_struck(store, Some(struck)).dom() =~= store.records().dom());
}

/// Adding a spool keeps the store consistent. Its tag leads to it, the spool that the tag
/// belonged to is struck out, and every other spool is as before.
pub proof fn adding_keeps_the_store_consistent(
    before: Store,
    inserted: Store,
    after: Store,
    record: SpoolRecord,
    written: Written,
    struck: Option<Rewritten>,
)
    requires
        before.consistent(),
        before.spools_db is Some,
        before.last_spool_id < i32::MAX,
        record.id@ == int_text(before.last_spool_id + 1),
        before.reports(record, Ok(written)),
        inserted.wf(),
        inserted.records() == before.records_with(record, written),
        inserted.tag_id_index == before.tag_id_index,
        inserted.last_spool_id == before.last_spool_id + 1,
        after.wf(),
        after.last_spool_id == inserted.last_spool_id,
        record.tag_id@.len() == 0 ==> after == inserted && struck is None,
        record.tag_id@.len() > 0 ==> {
            &&& strikes(inserted, inserted.owner(record.tag_id@), struck)
            &&& after.records() == records_struck(inserted, struck)
            &&& if struck is Some {
                exists|mid: Store| #[trigger]
                    mid.unlinked(inserted, struck->0.record.id@) && after.linked(mid, record.tag_id@, record.id@)
            } else {
                after.linked(inserted, record.tag_id@, record.id@)
            }
        },
    ensures
        after.consistent(),
        after.rec(record.id@) == Some(record),
        record.tag_id@.len() > 0 ==> after.owner(record.tag_id@) == Some(record),
        struck is Some ==> after.rec(struck->0.record.id@) == Some(struck->0.record),
        forall|k: Seq<char>|
            k != record.id@ && (struck is Some ==> k != struck->0.record.id@) ==> #[trigger] after.rec(k) == before.rec(
                k,
            ),
{
    let tag = record.tag_id@;
    let id = record.id@;
    new_id_is_unused(before);
    number_reads_back(before.last_spool_id + 1);
    assert(written is At);
    assert(inserted.rec(id) == Some(record));
    assert forall|k: Seq<char>| #[trigger] inserted.records().contains_key(k) implies k == id
        || before.records().contains_key(k) by {}
    assert forall|t: Seq<char>| #[trigger] inserted.indexed(t) == before.indexed(t) by {}
    assert forall|t: Seq<char>| (#[trigger] before.indexed(t)) != Some(id) by {
        if before.tag_id_index@.contains_key(t) {
            assert(before.id_was_given(before.tag_id_index@[t]@));
        }
    }
    assert(inserted.links_bounded()) by {
        assert forall|t: Seq<char>| #[trigger] inserted.tag_id_index@.contains_key(t) implies inserted.id_was_given(
            inserted.tag_id_index@[t]@,
        ) by {
            assert(before.tag_id_index@.contains_key(t));
            assert(before.id_was_given(before.tag_id_index@[t]@));
        }
    }
    assert(inserted.ids_bounded()) by {
        assert forall|k: Seq<char>| #[trigger]
            inserted.records().contains_key(k) && parsed(k, i32::MIN as int, i32::MAX as int) is Some implies parsed(
            k,
            i32::MIN as int,
            i32::MAX as int,
        )->0 <= inserted.last_spool_id by {
            if k != id {
                assert(before.records().contains_key(k));
            }
        }
    }
    if tag.len() == 0 {
        assert(after.tags_indexed()) by {
            assert forall|k: Seq<char>| #[trigger]
                after.records().contains_key(k) && usable(after.records()[k].data.tag_id@) implies after.indexed(
                after.records()[k].data.tag_id@,
            ) == Some(k) by {
                assert(k != id);
                assert(before.records().contains_key(k));
            }
        }
    } else {
        let mid = if struck is Some {
            let mid = choose|mid: Store| #[trigger]
                mid.unlinked(inserted, struck->0.record.id@) && after.linked(mid, tag, id);
            lemma_struck(inserted, inserted.owner(tag)->0, struck->0);
            mid
        } else {
            inserted
        };
        assert forall|t: Seq<char>| #[trigger] mid.indexed(t) is Some implies mid.indexed(t) == inserted.indexed(t) by {}
        lemma_tags_after_link(inserted, mid, after, record, struck);
        assert(after.links_bounded()) by {
            assert forall|t: Seq<char>| #[trigger] after.tag_id_index@.contains_key(t) implies after.id_was_given(
                after.tag_id_index@[t]@,
            ) by {
                assert(after.indexed(t) == Some(after.tag_id_index@[t]@));
                if t != tag {
                    assert(mid.indexed(t) == inserted.indexed(t));
                    assert(inserted.tag_id_index@.contains_key(t));
                    assert(inserted.id_was_given(inserted.tag_id_index@[t]@));
                }
            }
        }
        assert(after.records().dom() == inserted.records().dom());
        assert(after.indexed(tag) == Some(id));
    }
}

proof fn lemma_tags_after_link(
    inserted: Store,
    mid: Store,
    after: Store,
    record: SpoolRecord,
    struck: Option<Rewritten>,
)
    requires
        inserted.wf(),
        inserted.records().contains_key(record.id@),
        inserted.records()[record.id@].data.tag_id@ == record.tag_id@,
        inserted.tags_indexed_but(record.tag_id@, record.id@),
        inserted.indexed(record.tag_id@) != Some(record.id@),
        strikes(inserted, inserted.owner(record.tag_id@), struck),
        after.records() == records_struck(inserted, struck),
        if struck is Some {
            mid.unlinked(inserted, struck->0.record.id@)
        } else {
            mid == inserted
        },
        after.linked(mid, record.tag_id@, record.id@),
    ensures
        after.tags_indexed(),
{
    let tag = record.tag_id@;
    if struck is Some {
        lemma_struck(inserted, inserted.owner(tag)->0, struck->0);
    }
    assert forall|k: Seq<char>| #[trigger]
        after.records().contains_key(k) && usable(after.records()[k].data.tag_id@) implies after.indexed(
        after.records()[k].data.tag_id@,
    ) == Some(k) by {
        assert(inserted.records().contains_key(k));
        let t = after.records()[k].data.tag_id@;
        if struck is Some {
            assert(k != struck->0.record.id@);
        }
        assert(after.records()[k] == inserted.records()[k]);
        if k != record.id@ {
            assert(inserted.indexed(t) == Some(k));
            if t == tag {
                assert(inserted.owner(tag) is Some);
                assert(false);
            }
            assert(mid.indexed(t) == inserted.indexed(t));
        }
    }
}

/// Updating a spool keeps the store consistent. A usable tag leads to it, another spool
/// that the tag belonged to is struck out, and every other spool is as before.
pub proof fn updating_keeps_the_store_consistent(
    before: Store,
    updated: Store,
    after: Store,
    record: SpoolRecord,
    written: Written,
    struck: Option<Rewritten>,
)
    requires
        before.consistent(),
        before.rec(record.id@) is Some,
        before.reports(record, Ok(written)),
        updated.wf(),
        updated.records() == before.records_with(record, written),
        updated.last_spool_id == before.last_spool_id,
        after.wf(),
        after.last_spool_id == before.last_spool_id,
        !usable(record.tag_id@) ==> updated.unlinked(before, record.id@) && after == updated && struck is None,
        usable(record.tag_id@) ==> {
            let other = updated.other_holder_by(before, record);
            &&& strikes(updated, other, struck)
            &&& after.records() == records_struck(updated, struck)
            &&& if other is Some {
                updated.tag_id_index == before.tag_id_index && after.linked(updated, record.tag_id@, record.id@)
            } else {
                updated.linked(before, record.tag_id@, record.id@) && after == updated
            }
        },
    ensures
        after.consistent(),
        after.rec(record.id@) is Some,
        after.rec(record.id@)->0 == record || after.rec(record.id@)->0.equals(&record),
        usable(record.tag_id@) ==> after.owner(record.tag_id@) == after.rec(record.id@),
        struck is Some ==> after.rec(struck->0.record.id@) == Some(struck->0.record),
        forall|k: Seq<char>|
            k != record.id@ && (struck is Some ==> k != struck->0.record.id@) ==> #[trigger] after.rec(k) == before.rec(
                k,
            ),
{
    let tag = record.tag_id@;
    let id = record.id@;
    assert(updated.records().dom() =~= before.records().dom());
    assert(updated.records()[id].data.tag_id@ == tag);
    assert(updated.records()[id].data.id@ == id);
    assert forall|k: Seq<char>| k != id && #[trigger] updated.records().contains_key(k) implies before.records().contains_key(
        k,
    ) && updated.records()[k] == before.records()[k] by {}
    assert(before.id_was_given(id)) by {
        assert(before.records().contains_key(id));
    }
    if !usable(tag) {
        lemma_unlink_bounded(before, updated, id);
        assert forall|k: Seq<char>| #[trigger]
            after.records().contains_key(k) && usable(after.records()[k].data.tag_id@) implies after.indexed(
            after.records()[k].data.tag_id@,
        ) == Some(k) by {
            assert(k != id);
            assert(before.records().contains_key(k));
        }
    } else if let Some(h) = updated.other_holder_by(before, record) {
        assert(before.indexed(tag) == Some(h.id@));
        lemma_struck(updated, h, struck->0);
        assert(updated.links_bounded()) by {
            assert forall|t: Seq<char>| #[trigger] updated.tag_id_index@.contains_key(t) implies updated.id_was_given(
                updated.tag_id_index@[t]@,
            ) by {
                assert(before.id_was_given(before.tag_id_index@[t]@));
            }
        }
        lemma_link_bounded(updated, after, tag, id);
        assert forall|k: Seq<char>| #[trigger]
            after.records().contains_key(k) && usable(after.records()[k].data.tag_id@) implies after.indexed(
            after.records()[k].data.tag_id@,
        ) == Some(k) by {
            let t = after.records()[k].data.tag_id@;
            assert(updated.records().contains_key(k));
            assert(k != h.id@);
            assert(after.records()[k] == updated.records()[k]);
            if k != id {
                assert(before.indexed(t) == Some(k));
                assert(updated.indexed(t) == before.indexed(t));
            }
        }
        assert(after.indexed(tag) == Some(id));
        assert(after.records().contains_key(id));
        assert(after.records()[id] == updated.records()[id]);
    } else {
        lemma_link_bounded(before, updated, tag, id);
        assert forall|k: Seq<char>| #[trigger]
            after.records().contains_key(k) && usable(after.records()[k].data.tag_id@) implies after.indexed(
            after.records()[k].data.tag_id@,
        ) == Some(k) by {
            let t = after.records()[k].data.tag_id@;
            if k != id {
                assert(before.records().contains_key(k));
                assert(before.indexed(t) == Some(k));
                if t == tag {
                    assert(updated.records().contains_key(k));
                    assert(updated.other_holder_by(before, record) is Some);
                }
            }
        }
        assert(after.indexed(tag) == Some(id));
    }
    assert(after.records().dom() =~= before.records().dom());
    assert(after.ids_bounded()) by {
        assert forall|k: Seq<char>| #[trigger]
            after.records().contains_key(k) && parsed(k, i32::MIN as int, i32::MAX as int) is Some implies parsed(
            k,
            i32::MIN as int,
            i32::MAX as int,
        )->0 <= after.last_spool_id by {
            assert(before.records().contains_key(k));
        }
    }
    assert forall|k: Seq<char>|
        k != id && (struck is Some ==> k != struck->0.record.id@) implies #[trigger] after.rec(k) == before.rec(k) by {
        assert(after.records().contains_key(k) == before.records().contains_key(k));
        if before.records().contains_key(k) {
            assert(updated.records().contains_key(k));
            assert(after.records()[k] == updated.records()[k]);
        }
    }
}

/// A tag identifies a spool unless it is empty or begins with a dash. Striking it out puts
/// a dash before it, and changes nothing else of the spool.
pub proof fn dash_strikes_a_tag_out(tag: Seq<char>, r: SpoolRecord, of: SpoolRecord)
    ensures
        !usable(seq![]),
        tag.len() > 0 ==> (usable(tag) <==> tag[0] != '-'),
        !usable(seq!['-'] + tag),
        is_struck(r, of) ==> r.tag_id@ == seq!['-'] + of.tag_id@ && !usable(r.tag_id@) && r.id == of.id && r.material_type
            == of.material_type && r.material_subtype == of.material_subtype && r.color_name == of.color_name && r.color_code
            == of.color_code && r.note == of.note && r.brand == of.brand && r.weight_advertised == of.weight_advertised
            && r.weight_core == of.weight_core && r.weight_new == of.weight_new && r.weight_current == of.weight_current
            && r.slicer_filament == of.slicer_filament && r.added_time == of.added_time && r.encode_time == of.encode_time
            && r.added_full == of.added_full && r.consumed_since_add == of.consumed_since_add && r.consumed_since_weight
            == of.consumed_since_weight && r.ext_has_k == of.ext_has_k && r.assigned_location == of.assigned_location
            && r.actual_location == of.actual_location && r.spools_count == of.spools_count,
{
    let none: Seq<char> = seq![];
    assert(none.len() == 0);
    assert((seq!['-'] + tag)[0] == '-');
}

/// A spool is found by its id in the record file, and by its tag through the index. Without
/// record file there is none.
pub proof fn spools_are_found_by_id_and_by_tag(store: Store, id: Seq<char>, tag: Seq<char>)
    ensures
        store.spools_db is None ==> store.rec(id) is None && store.owner(tag) is None,
        store.spools_db is Some ==> {
            let records = store.spools_db->0.records@;
            &&& store.rec(id) is Some <==> records.contains_key(id)
            &&& records.contains_key(id) ==> store.rec(id) == Some(records[id].data)
            &&& store.owner(tag) is Some <==> store.tag_id_index@.contains_key(tag) && records.contains_key(
                store.tag_id_index@[tag]@,
            )
            &&& store.owner(tag) is Some ==> store.owner(tag) == Some(records[store.tag_id_index@[tag]@].data)
        },
{
}

/// The extended records of sixteen ids in a row lie in one folder, and those of the next
/// sixteen in the next of sixteen folders. The file is named by the id.
pub proof fn extended_files_lie_in_sixteen_folders(n: int)
    requires
        0 <= n <= i32::MAX,
    ensures
        1 <= ext_folder(n) <= 16,
        n < 16 ==> ext_folder(n) == 1,
        n % 16 != 0 ==> ext_folder(n) == ext_folder(n - 1),
        n >= 16 ==> ext_folder(n) == (if ext_folder(n - 16) == 16 {
            1
        } else {
            ext_folder(n - 16) + 1
        }),
        ext_path(int_text(n)) == Some(
            "/store/spools.ext/"@ + int_text(ext_folder(n)) + seq!['/'] + int_text(n) + ".jsn"@,
        ),
        forall|id: Seq<char>| #[trigger] ext_path(id) is Some <==> parsed(id, i32::MIN as int, i32::MAX as int) is Some,
        forall|id: Seq<char>| #[trigger]
            ext_path(id) is Some ==> ext_path(id) == Some(ext_path_of(parsed(id, i32::MIN as int, i32::MAX as int)->0)),
{
    number_reads_back(n);
}

/// The rows of all spools stand one after another.
pub proof fn rows_stand_one_after_another(rows: Seq<Option<String>>, row: String)
    ensures
        all_rows(seq![]).len() == 0,
        all_rows(rows.push(Some(row))) == all_rows(rows) + row@,
{
    assert(rows.push(Some(row)).drop_last() =~= rows);
}

/// A record that was written stands under its id, with its place and length, and no other
/// changes. One that the file held already changes none.
pub proof fn written_record_stands_under_its_id(store: Store, record: SpoolRecord, offset: u32, length: usize, k: Seq<char>)
    ensures
        store.records_with(record, Written::Unchanged) == store.records(),
        ({
            let now = store.records_with(record, Written::At { offset, length });
            &&& now.contains_key(record.id@)
            &&& now[record.id@].data == record
            &&& now[record.id@].offset == offset
            &&& now[record.id@].length == length
            &&& k != record.id@ ==> (now.contains_key(k) <==> store.records().contains_key(k))
            &&& k != record.id@ && store.records().contains_key(k) ==> now[k] == store.records()[k]
        }),
        store.reports(record, Ok(Written::Unchanged)) <==> store.rec(record.id@) is Some && store.rec(
            record.id@,
        )->0.equals(&record),
{
}

/// A link gives a tag to a spool and leaves every other tag alone. An unlinked spool has
/// lost one tag where it had one, and no other spool has lost any.
pub proof fn links_concern_one_tag(before: Store, after: Store, tag: Seq<char>, id: Seq<char>, t: Seq<char>)
    ensures
        after.linked(before, tag, id) ==> after.tag_id_index@.contains_key(tag) && after.tag_id_index@[tag]@ == id,
        after.linked(before, tag, id) && t != tag ==> (after.tag_id_index@.contains_key(t)
            <==> before.tag_id_index@.contains_key(t)),
        after.linked(before, tag, id) && t != tag && before.tag_id_index@.contains_key(t) ==> after.tag_id_index@[t]@
            == before.tag_id_index@[t]@,
        after.unlinked(before, id) && before.tag_id_index@.contains_key(t) && before.tag_id_index@[t]@ != id
            ==> after.tag_id_index@.contains_key(t) && after.tag_id_index@[t] == before.tag_id_index@[t],
        after.unlinked(before, id) && !before.tag_id_index@.contains_key(t) ==> !after.tag_id_index@.contains_key(t),
        after.unlinked(before, id) && before.tag_id_index@.contains_key(t) && before.tag_id_index@[t]@ == id && (forall|
            u: Seq<char>,
        |
            #[trigger] before.tag_id_index@.contains_key(u) && before.tag_id_index@[u]@ == id ==> u == t)
            ==> !after.tag_id_index@.contains_key(t),
{
    if after.linked(before, tag, id) {
        assert(after.indexed(tag) == Some(id));
        assert(after.indexed(t) == (if t == tag {
            Some(id)
        } else {
            before.indexed(t)
        }));
    }
}

/// The other spool with a tag is the one that the index had for it before, unless that is
/// the spool itself or has no record.
pub proof fn other_spool_with_the_tag_is_struck_out(now: Store, before: Store, record: SpoolRecord)
    ensures
        ({
            let held = before.tag_id_index@.contains_key(record.tag_id@);
            let id = before.tag_id_index@[record.tag_id@]@;
            let other = now.other_holder_by(before, record);
            &&& other is Some <==> held && id != record.id@ && now.rec(id) is Some
            &&& other is Some ==> other == now.rec(id)
        }),
{
}

/// A store is the same but for its records, or but for its index, where everything else is.
pub proof fn store_stays_the_same_in_every_other_field(a: Store, b: Store)
    ensures
        a.same_but_index(b) <==> a == (Store { tag_id_index: a.tag_id_index, ..b }),
        a.same_but_records(b) <==> a.last_spool_id == b.last_spool_id && a.tag_id_index == b.tag_id_index && a.initialized
            == b.initialized && (a.spools_db is Some <==> b.spools_db is Some) && (a.spools_db is Some
            ==> a.spools_db->0.db_file_name == b.spools_db->0.db_file_name && a.spools_db->0.dbm_file_name
            == b.spools_db->0.dbm_file_name && a.spools_db->0.record_width == b.spools_db->0.record_width),
{
}

/// A file of a later version is not used, one of an earlier version is brought up to date,
/// and one whose version is none is not used either.
pub proof fn versions_decide_on_a_file(parses: bool, newer: bool, older: bool)
    ensures
        opening(parses, newer, older) is Unparsable <==> !parses,
        opening(parses, newer, older) is TooNew <==> parses && newer,
        opening(parses, newer, older) is Upgrade <==> parses && !newer && older,
        opening(parses, newer, older) is Current <==> parses && !newer && !older,
{
}

/// The first version was written as a single digit. The version now is 1.1.0; of versions
/// of three single digits the number that they form decides.
pub proof fn versions_go_by_their_digits(a: Seq<char>, b: Seq<char>)
    ensures
        full_version(seq!['1']) == seq!['1', '.', '0', '.', '0'],
        a != seq!['1'] ==> full_version(a) == a,
        store_version() == seq!['1', '.', '1', '.', '0'],
        short_version(a) <==> a.len() == 5 && '0' <= a[0] && a[0] <= '9' && a[1] == '.' && '0' <= a[2] && a[2] <= '9' && a[3]
            == '.' && '0' <= a[4] && a[4] <= '9',
        short_version(a) && short_version(b) ==> (digits_before(a, b) <==> (a[0] as int * 100 + a[2] as int * 10
            + a[4] as int) < (b[0] as int * 100 + b[2] as int * 10 + b[4] as int)),
{
    reveal_strlit("1");
    reveal_strlit("1.0.0");
    reveal_strlit("1.1.0");
    assert("1"@ =~= seq!['1']);
    assert("1.0.0"@ =~= seq!['1', '.', '0', '.', '0']);
    assert("1.1.0"@ =~= seq!['1', '.', '1', '.', '0']);
}

/// A spool counts where it has a record and its id is a number.
pub proof fn numbered_spools_count(db: CsvDb<SpoolRecord>, k: Seq<char>)
    ensures
        counts(db, k) <==> db.records@.contains_key(k) && parsed(k, i32::MIN as int, i32::MAX as int) is Some,
{
}

/// A new spool is kept as it was given, but for its id, the time at which it was added, and
/// whether there are calibrations.
pub proof fn new_spool_is_kept_as_given(r: SpoolRecord, given: SpoolRecord, id: int, has_k: bool, now: Option<i32>)
    requires
        is_added(r, given, id, has_k, now),
    ensures
        r.id@ == int_text(id),
        r.added_time == now,
        r.ext_has_k == has_k,
        r.tag_id == given.tag_id,
        r.material_type == given.material_type,
        r.material_subtype == given.material_subtype,
        r.color_name == given.color_name,
        r.color_code == given.color_code,
        r.note == given.note,
        r.brand == given.brand,
        r.weight_advertised == given.weight_advertised,
        r.weight_core == given.weight_core,
        r.weight_new == given.weight_new,
        r.weight_current == given.weight_current,
        r.slicer_filament == given.slicer_filament,
        r.encode_time == given.encode_time,
        r.added_full == given.added_full,
        r.consumed_since_add == given.consumed_since_add,
        r.consumed_since_weight == given.consumed_since_weight,
        r.assigned_location == given.assigned_location,
        r.actual_location == given.actual_location,
        r.spools_count == given.spools_count,
{
}

/// The web page changes the description of a spool, its material, its colors and places. It
/// does not change what is measured or kept by the console: the tag, the weights on the
/// scale, what was used, the time of encoding, and the time at which the spool was added.
pub proof fn page_changes_only_the_description(current: SpoolRecord, given: SpoolRecord, has_k: bool, now: Option<i32>)
    ensures
        ({
            let r = edited(current, given, has_k, now);
            &&& r.tag_id == current.tag_id
            &&& r.weight_new == current.weight_new
            &&& r.weight_current == current.weight_current
            &&& r.encode_time == current.encode_time
            &&& r.consumed_since_add == current.consumed_since_add
            &&& r.consumed_since_weight == current.consumed_since_weight
            &&& current.added_time is Some ==> r.added_time == current.added_time
            &&& current.added_time is None ==> r.added_time == now
            &&& r.ext_has_k == has_k
            &&& r.id == given.id
            &&& r.material_type == given.material_type
            &&& r.material_subtype == given.material_subtype
            &&& r.color_name == given.color_name
            &&& r.color_code == given.color_code
            &&& r.note == given.note
            &&& r.brand == given.brand
            &&& r.weight_advertised == given.weight_advertised
            &&& r.weight_core == given.weight_core
            &&& r.slicer_filament == given.slicer_filament
            &&& r.added_full == given.added_full
            &&& r.assigned_location == given.assigned_location
            &&& r.actual_location == given.actual_location
            &&& r.spools_count == given.spools_count
        }),
{
}

} // verus!
