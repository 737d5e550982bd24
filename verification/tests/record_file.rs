use spoolease::csvdb::{
    is_empty_record, read_meta_version, read_meta_width, write_meta, CsvDb, CsvDbError, DeletePlan, InsertPlan,
};
use spoolease::spool_record::SpoolRecord;

fn record(id: &str, note: &str) -> SpoolRecord {
    SpoolRecord { id: id.to_string(), note: note.to_string(), ..SpoolRecord::default() }
}

fn row(r: &SpoolRecord) -> Vec<u8> {
    format!("{},{}\n", r.id, r.note).into_bytes()
}

fn decode(bytes: &[u8]) -> (SpoolRecord, usize) {
    let end = bytes.iter().position(|&b| b == b'\n').unwrap();
    let line = std::str::from_utf8(&bytes[..end]).unwrap();
    let (id, note) = line.split_once(',').unwrap();
    (record(id, note), end + 1)
}

fn open(width: usize) -> CsvDb<SpoolRecord> {
    CsvDb::new("/store/spools", &write_meta("1", width), 1).unwrap().0
}

fn read(file: &[u8], width: usize) -> CsvDb<SpoolRecord> {
    let mut db = open(width);
    let frames = db.frames(file);
    let decoded = frames.iter().map(|&o| decode(&file[o as usize..o as usize + width])).collect();
    db.load(&frames, decoded);
    db
}

fn insert(db: &mut CsvDb<SpoolRecord>, file: &mut Vec<u8>, r: SpoolRecord) {
    let bytes = row(&r);
    match db.insert(&r, Some(&bytes)).unwrap() {
        InsertPlan::Unchanged => {}
        InsertPlan::Overwrite { offset, row } => {
            file[offset as usize..offset as usize + row.len()].copy_from_slice(&row);
            db.complete_insert(r, offset, bytes.len());
        }
        InsertPlan::Append { row } => {
            let offset = file.len() as u32;
            file.extend(row);
            db.complete_insert(r, offset, bytes.len());
        }
    }
}

fn contents(db: &CsvDb<SpoolRecord>) -> Vec<(String, String, u32, usize)> {
    let mut v: Vec<_> = (0..db.records.len())
        .map(|i| {
            let info = db.records.value_at(i);
            (info.data.id.clone(), info.data.note.clone(), info.offset, info.length)
        })
        .collect();
    v.sort();
    v
}

#[test]
fn unknown_record_needs_no_width() {
    let db = open(0);
    assert_eq!(db.record_width, 0);
    assert_eq!(db.delete("1"), None);
}

#[test]
fn description_is_written_and_read_back() {
    assert_eq!(write_meta("1", 1024), "version: 1\nrecord_width:1024");
    assert_eq!(write_meta("1.1.0", 77), "version: 1.1.0\nrecord_width:77");
    for version in ["1", "1.1.0", "2:0", ""] {
        assert_eq!(read_meta_width(&write_meta(version, 1024)), Ok(Some(1024)));
        assert_eq!(read_meta_version(&write_meta(version, 1024)), version);
    }
    assert_eq!(read_meta_version("version:  1.0 \r\nrecord_width: 77"), "1.0");
    assert_eq!((read_meta_version(""), read_meta_version("version\nx: 1")), (String::new(), String::new()));
    assert_eq!(read_meta_width("version: 1\r\nrecord_width: 77 \r\n"), Ok(Some(77)));
    assert_eq!(read_meta_width("version: 1"), Ok(None));
    assert_eq!(read_meta_width("version: 1\nnothing"), Ok(None));
    assert_eq!(read_meta_width("version: 1\nrecord_width: x"), Err(CsvDbError::Metadata));
    assert_eq!(read_meta_width("version: 1\nrecord_width:"), Err(CsvDbError::Metadata));
}

#[test]
fn new_file_is_described() {
    let (db, description) = CsvDb::<SpoolRecord>::new("/store/spools", "", 64).unwrap();
    assert_eq!(description.unwrap(), "version: 1\nrecord_width:64");
    assert_eq!(db.db_file_name, "/store/spools.db");
    assert_eq!(db.dbm_file_name, "/store/spools.dbm");
    assert_eq!(db.record_width, 64);
    let (db, description) = CsvDb::<SpoolRecord>::new("/store/spools", "version: 1\nrecord_width:32", 64).unwrap();
    assert!(description.is_none());
    assert_eq!(db.record_width, 32);
    let (db, _) = CsvDb::<SpoolRecord>::new("x", "version: 1", 64).unwrap();
    assert_eq!(db.record_width, 64);
    assert!(matches!(CsvDb::<SpoolRecord>::new("x", "a\nb:c", 64), Err(CsvDbError::Metadata)));
}

#[test]
fn empty_records_are_dashes() {
    let db = open(5);
    assert_eq!(db.calc_empty_record(), b"----\n");
    assert!(is_empty_record(b"----\n"));
    assert!(is_empty_record(b"-\n"));
    assert!(!is_empty_record(b"\n"));
    assert!(!is_empty_record(b"-----"));
    assert!(!is_empty_record(b"-a--\n"));
    assert!(!is_empty_record(b""));
}

#[test]
fn rows_are_filled_up() {
    let db = open(8);
    assert_eq!(db.calc_csv_row(b"a,b\n").unwrap(), b"a,b\n---\n");
    assert_eq!(db.calc_csv_row(b"a,bcdef\n").unwrap(), b"a,bcdef\n");
    assert_eq!(db.calc_csv_row(b"a,bcdefg\n"), Err(CsvDbError::Serialize));
}

#[test]
fn what_is_written_is_read_back() {
    let width = 16;
    let mut file: Vec<u8> = Vec::new();
    let mut db = open(width);
    insert(&mut db, &mut file, record("1", "red"));
    insert(&mut db, &mut file, record("2", "blue"));
    insert(&mut db, &mut file, record("3", "green"));
    assert_eq!(file.len(), 3 * width);
    assert_eq!(contents(&read(&file, width)), contents(&db));
    insert(&mut db, &mut file, record("2", "yellow"));
    assert_eq!(file.len(), 3 * width);
    assert_eq!(contents(&read(&file, width)), contents(&db));
    assert_eq!(contents(&db)[1], ("2".to_string(), "yellow".to_string(), 16, 9));
}

#[test]
fn stored_record_asks_for_nothing() {
    let mut file = Vec::new();
    let mut db = open(16);
    insert(&mut db, &mut file, record("1", "red"));
    assert_eq!(db.insert(&record("1", "red"), None), Ok(InsertPlan::Unchanged));
    assert_eq!(db.insert(&record("1", "blue"), None), Err(CsvDbError::Serialize));
    assert_eq!(db.insert(&record("1", "blue"), Some(&[b'x'; 17])), Err(CsvDbError::Serialize));
}

#[test]
fn weights_are_compared_as_numbers() {
    let mut db = open(64);
    let mut r = record("1", "red");
    r.consumed_since_add.bits = 0.0f32.to_bits();
    db.complete_insert(r.clone(), 0, 6);
    r.consumed_since_add.bits = (-0.0f32).to_bits();
    assert_eq!(db.insert(&r, Some(b"x\n")), Ok(InsertPlan::Unchanged));
    r.consumed_since_add.bits = f32::NAN.to_bits();
    db.complete_insert(r.clone(), 0, 6);
    assert!(matches!(db.insert(&r, Some(b"x\n")), Ok(InsertPlan::Overwrite { offset: 0, .. })));
    r.spools_count = 2;
    r.consumed_since_add.bits = 0;
    assert!(matches!(db.insert(&r, Some(b"x\n")), Ok(InsertPlan::Overwrite { .. })));
}

#[test]
fn deleted_record_is_not_read_back() {
    let width = 16;
    let mut file: Vec<u8> = Vec::new();
    let mut db = open(width);
    insert(&mut db, &mut file, record("1", "red"));
    insert(&mut db, &mut file, record("2", "blue"));
    assert_eq!(db.delete("9"), None);
    let DeletePlan { offset, row } = db.delete("1").unwrap();
    file[offset as usize..offset as usize + row.len()].copy_from_slice(&row);
    assert_eq!(db.complete_delete("1").unwrap().note, "red");
    assert!(db.complete_delete("1").is_none());
    assert_eq!(contents(&read(&file, width)), contents(&db));
    assert_eq!(contents(&db).len(), 1);
}

#[test]
fn of_two_records_with_one_key_the_later_stays() {
    let width = 8;
    let mut file = b"1,a\n---\n".to_vec();
    file.extend(b"-------\n");
    file.extend(b"1,b\n---\n");
    let db = read(&file, width);
    assert_eq!(contents(&db), vec![("1".to_string(), "b".to_string(), 16, 4)]);
    assert_eq!(db.frames(&file), vec![0, 16]);
    assert!(open(width).frames(b"").is_empty());
}
