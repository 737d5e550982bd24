use spoolease::csvdb::{CsvDb, CsvDbError, DeletePlan, InsertPlan};
use spoolease::spool_record::{KExtruder, KInfo, KNozzleDiameter, KNozzleId, KPrinter, SpoolRecord, SpoolRecordExt};
use spoolease::store::{
    availability, check_version, decide_opening, spool_rec_ext_file_path, Availability, Opening, Rewritten, Store,
    StoreError, Written,
};
use spoolease::text_map::{NumberMap, TextMap};

fn record(id: &str, tag: &str) -> SpoolRecord {
    SpoolRecord { id: id.to_string(), tag_id: tag.to_string(), ..SpoolRecord::default() }
}

fn open_store(records: Vec<SpoolRecord>) -> Store {
    let mut store = Store::new();
    let (mut db, _) = CsvDb::new("/store/spools", "", 64).unwrap();
    let mut offset = 0;
    for r in records {
        db.complete_insert(r, offset, 10);
        offset += 64;
    }
    store.spools_db = Some(db);
    store.finish_opening(true);
    store
}

fn write(store: &Store, r: &SpoolRecord) -> Result<Written, CsvDbError> {
    let row = format!("{},{}\n", r.id, r.tag_id).into_bytes();
    let db = store.spools_db.as_ref().unwrap();
    Ok(match db.insert(r, Some(&row))? {
        InsertPlan::Unchanged => Written::Unchanged,
        InsertPlan::Overwrite { offset, .. } => Written::At { offset, length: row.len() },
        InsertPlan::Append { .. } => Written::At { offset: 64 * db.records.len() as u32, length: row.len() },
    })
}

fn add(store: &mut Store, tag: &str) -> Result<String, StoreError> {
    let r = store.add_spool(record("", tag), &SpoolRecordExt::default(), Some(7))?;
    let id = r.id.clone();
    let written = write(store, &r);
    let strike = store.add_spool_inserted(r, written)?;
    let struck = strike.map(|record| Rewritten { written: write(store, &record), record });
    let linked = store.add_spool_linked(tag, &id, struck);
    Store::add_spool_result(&id, Ok(()), linked)
}

fn update(store: &mut Store, r: SpoolRecord) -> Result<(), StoreError> {
    store.update_spool(&r)?;
    let (tag, id) = (r.tag_id.clone(), r.id.clone());
    let written = write(store, &r);
    match store.update_spool_written(r, written)? {
        None => Ok(()),
        Some(other) => {
            let written = write(store, &other);
            store.update_spool_struck(Rewritten { record: other, written }, &tag, &id)
        }
    }
}

fn tag_of(store: &Store, id: &str) -> String {
    store.get_spool_by_id(id).unwrap().tag_id
}

#[test]
fn extended_files_differ() {
    let path = |id: &str| spool_rec_ext_file_path(id).unwrap();
    assert_eq!(path("0"), "/store/spools.ext/1/0.jsn");
    assert_eq!(path("17"), "/store/spools.ext/2/17.jsn");
    assert_eq!(path("255"), "/store/spools.ext/16/255.jsn");
    assert_eq!(path("256"), "/store/spools.ext/1/256.jsn");
    assert_eq!(path("-17"), "/store/spools.ext/0/-17.jsn");
    assert_eq!(path("+5"), "/store/spools.ext/1/5.jsn");
    assert!(matches!(spool_rec_ext_file_path("x"), Err(StoreError::BadId)));
    assert!(matches!(spool_rec_ext_file_path("2147483648"), Err(StoreError::BadId)));
}

#[test]
fn store_without_file_knows_nothing() {
    let mut store = Store::new();
    assert!(!store.is_available() && !store.is_initialized());
    assert!(store.get_spool_by_id("1").is_none());
    assert!(store.query_spools(&vec![]).is_none());
    assert!(store.delete_spool("1").is_none());
    assert!(store.spool_deleted("1").is_none());
    assert!(store.upgrade_versions().is_empty());
    assert!(matches!(store.add_spool(record("", ""), &SpoolRecordExt::default(), None), Err(StoreError::NoCsvDb)));
    assert!(matches!(store.update_spool(&record("1", "")), Err(StoreError::NoCsvDb)));
    assert!(matches!(store.edit_spool_from_web(record("1", ""), false, None), Err(StoreError::NoCsvDb)));
    store.finish_opening(true);
    assert!(store.is_initialized() && !store.is_available());
    assert_eq!(store.last_spool_id, 0);
}

#[test]
fn opening_indexes_every_tag() {
    let store = open_store(vec![record("3", "0A"), record("12", "0B"), record("5", "-0C"), record("x", "0D"), record("-2", "")]);
    assert_eq!(store.last_spool_id, 12);
    assert_eq!(store.get_spool_by_hex_tag("0A").unwrap().id, "3");
    assert_eq!(store.get_spool_by_tag_id(&[0x0b]).unwrap().id, "12");
    assert!(store.get_spool_by_hex_tag("0a").is_none());
    assert!(store.get_spool_by_hex_tag("0C").is_none());
    assert!(store.get_spool_by_hex_tag("-0C").is_none());
    assert!(store.get_spool_by_hex_tag("0D").is_none());
}

#[test]
fn unavailable_file_is_not_counted() {
    let mut store = Store::new();
    let (mut db, _) = CsvDb::new("x", "", 64).unwrap();
    db.complete_insert(record("3", "0A"), 0, 1);
    store.spools_db = Some(db);
    store.finish_opening(false);
    assert_eq!(store.last_spool_id, 0);
    assert!(store.is_initialized() && store.is_available());
    assert!(store.get_spool_by_hex_tag("0A").is_none());
    assert!(store.get_spool_by_id("3").is_some());
}

#[test]
fn new_spools_get_the_next_id() {
    let mut store = open_store(vec![record("4", "0A")]);
    assert_eq!(add(&mut store, "").unwrap(), "5");
    assert_eq!(add(&mut store, "0B").unwrap(), "6");
    let new = store.get_spool_by_hex_tag("0B").unwrap();
    assert_eq!((new.id.as_str(), new.added_time, new.ext_has_k), ("6", Some(7), false));
    assert_eq!(store.last_spool_id, 6);
}

#[test]
fn tag_of_a_new_spool_is_struck_out_elsewhere() {
    let mut store = open_store(vec![record("1", "0A"), record("2", "0B")]);
    assert_eq!(add(&mut store, "0A").unwrap(), "3");
    assert_eq!(tag_of(&store, "1"), "-0A");
    assert_eq!(tag_of(&store, "3"), "0A");
    assert_eq!(store.get_spool_by_hex_tag("0A").unwrap().id, "3");
    assert_eq!(store.get_spool_by_hex_tag("0B").unwrap().id, "2");
}

#[test]
fn failures_of_adding_are_reported() {
    let mut store = open_store(vec![record("1", "0A")]);
    let r = store.add_spool(record("", "0A"), &SpoolRecordExt::default(), None).unwrap();
    let failed = store.add_spool_inserted(r, Err(CsvDbError::Store));
    assert!(matches!(failed, Err(StoreError::CsvDbError { source: CsvDbError::Store })));
    assert_eq!(store.last_spool_id, 1);

    let known = record("2", "");
    store.record_written(known, Written::At { offset: 64, length: 3 });
    let again = store.add_spool(record("", ""), &SpoolRecordExt::default(), None).unwrap();
    let failed = store.add_spool_inserted(again, Ok(Written::At { offset: 64, length: 3 }));
    assert!(matches!(failed, Err(StoreError::InternalError)));

    let r = record("1", "-0A");
    let linked = store.add_spool_linked("0A", "9", Some(Rewritten { record: r, written: Err(CsvDbError::Store) }));
    assert!(matches!(linked, Err(StoreError::CsvDbError { source: CsvDbError::Store })));
    assert_eq!(tag_of(&store, "1"), "0A");

    assert!(matches!(Store::add_spool_result("3", Err(StoreError::BadId), Err(StoreError::Store)), Err(StoreError::BadId)));
    assert!(matches!(Store::add_spool_result("3", Ok(()), Err(StoreError::Store)), Err(StoreError::Store)));
}

#[test]
fn linked_spool_is_found() {
    let mut store = open_store(vec![record("1", ""), record("2", "0B")]);
    update(&mut store, record("1", "0C")).unwrap();
    assert_eq!(store.get_spool_by_hex_tag("0C").unwrap().id, "1");
    update(&mut store, record("1", "0B")).unwrap();
    assert_eq!(store.get_spool_by_hex_tag("0B").unwrap().id, "1");
    assert_eq!(tag_of(&store, "2"), "-0B");
}

#[test]
fn spool_without_tag_leaves_the_index() {
    let mut store = open_store(vec![record("1", "0A"), record("2", "0B")]);
    update(&mut store, record("1", "-0A")).unwrap();
    assert!(store.get_spool_by_hex_tag("0A").is_none());
    update(&mut store, record("2", "")).unwrap();
    assert!(store.get_spool_by_hex_tag("0B").is_none());
}

#[test]
fn refused_updates_change_nothing() {
    let mut store = open_store(vec![record("1", "0A")]);
    assert!(matches!(update(&mut store, record("", "0A")), Err(StoreError::MissingId)));
    assert!(matches!(update(&mut store, record("9", "0A")), Err(StoreError::IdNotFound)));
    let failed = store.update_spool_written(record("1", "0B"), Err(CsvDbError::Serialize));
    assert!(matches!(failed, Err(StoreError::CsvDbError { source: CsvDbError::Serialize })));
    assert_eq!(tag_of(&store, "1"), "0A");
    let struck = Rewritten { record: record("1", "-0A"), written: Err(CsvDbError::Store) };
    assert!(matches!(store.update_spool_struck(struck, "0A", "2"), Err(StoreError::CsvDbError { .. })));
    assert_eq!(store.get_spool_by_hex_tag("0A").unwrap().id, "1");
}

#[test]
fn tag_identifies_one_spool() {
    let mut store = open_store(vec![]);
    for tag in ["0A", "0B", "0A", "", "0B", "0A"] {
        add(&mut store, tag).unwrap();
    }
    let ids = store.upgrade_versions();
    for tag in ["0A", "0B"] {
        let owners: Vec<&String> = ids.iter().filter(|id| tag_of(&store, id) == tag).collect();
        assert_eq!(owners.len(), 1);
        assert_eq!(&store.get_spool_by_hex_tag(tag).unwrap().id, owners[0]);
    }
}

#[test]
fn deleted_spool_is_gone() {
    let mut store = open_store(vec![record("1", "0A"), record("2", ""), record("x", "0C")]);
    let DeletePlan { offset, row } = store.delete_spool("1").unwrap();
    assert_eq!((offset, row.len()), (0, 64));
    assert_eq!(store.spool_deleted("1").unwrap(), "/store/spools.ext/1/1.jsn");
    assert!(store.get_spool_by_id("1").is_none());
    assert!(store.get_spool_by_hex_tag("0A").is_none());
    assert!(store.spool_deleted("2").is_none());
    assert!(store.spool_deleted("x").is_none());
    assert!(store.delete_spool("1").is_none());
}

#[test]
fn web_page_cannot_change_what_was_measured() {
    let mut current = record("1", "0A");
    current.weight_new = Some(1200);
    current.weight_current = Some(900);
    current.encode_time = Some(5);
    current.consumed_since_add.bits = 1.5f32.to_bits();
    let store = open_store(vec![current]);
    let mut edited = record("1", "0B");
    edited.note = "note".to_string();
    edited.weight_new = Some(1);
    edited.weight_core = Some(250);
    edited.assigned_location = "shelf".to_string();
    edited.spools_count = 3;
    let r = store.edit_spool_from_web(edited, true, Some(77)).unwrap();
    assert_eq!((r.tag_id.as_str(), r.note.as_str()), ("0A", "note"));
    assert_eq!((r.weight_new, r.weight_current, r.weight_core), (Some(1200), Some(900), Some(250)));
    assert_eq!((r.added_time, r.encode_time, r.ext_has_k), (Some(77), Some(5), true));
    assert_eq!(f32::from_bits(r.consumed_since_add.bits), 1.5);
    assert_eq!((r.assigned_location.as_str(), r.spools_count), ("shelf", 3));
    let missing = store.edit_spool_from_web(record("8", ""), false, None);
    assert!(matches!(missing, Err(StoreError::NotFound { id }) if id == "8"));
}

#[test]
fn rows_are_joined() {
    let store = open_store(vec![record("1", ""), record("2", "")]);
    assert_eq!(store.query_spools(&vec![Some("a\n".to_string()), Some("b\n".to_string())]).unwrap(), "a\nb\n");
    assert!(store.query_spools(&vec![Some("a\n".to_string()), None]).is_none());
}

#[test]
fn extended_records_are_found() {
    let store = open_store(vec![record("18", ""), record("x", "")]);
    assert_eq!(store.get_spool_ext_by_id("18").unwrap(), "/store/spools.ext/2/18.jsn");
    assert_eq!(store.store_spool_rec_ext("18").unwrap(), "/store/spools.ext/2/18.jsn");
    assert!(matches!(store.get_spool_ext_by_id("19"), Err(StoreError::NotFound { id }) if id == "19"));
    assert!(matches!(store.get_spool_ext_by_id("x"), Err(StoreError::NotFound { id }) if id == "x"));
    assert!(matches!(store.store_spool_rec_ext("x"), Err(StoreError::BadId)));
}

fn k_info(serial: &str, k: &str) -> KInfo {
    let mut nozzles = TextMap::new();
    nozzles.insert(
        "HS".to_string(),
        KNozzleId { name: "n".to_string(), k_value: k.to_string(), cali_idx: 4, setting_id: None },
    );
    let mut diameters = TextMap::new();
    diameters.insert("0.4".to_string(), KNozzleDiameter { nozzles });
    let mut extruders = NumberMap::new();
    extruders.insert(0, KExtruder { diameters });
    let mut printers = TextMap::new();
    printers.insert(serial.to_string(), KPrinter { extruders });
    KInfo { printers }
}

#[test]
fn calibrations_are_found_by_all_four_keys() {
    let ext = SpoolRecordExt { tag: None, k_info: Some(k_info("S1", "0.02")) };
    assert_eq!(ext.get_calibrations("S1", 0, "0.4", "HS").unwrap().k_value, "0.02");
    assert!(ext.get_calibrations("S2", 0, "0.4", "HS").is_none());
    assert!(ext.get_calibrations("S1", 1, "0.4", "HS").is_none());
    assert!(ext.get_calibrations("S1", 0, "0.6", "HS").is_none());
    assert!(ext.get_calibrations("S1", 0, "0.4", "").is_none());
    assert!(SpoolRecordExt::default().get_calibrations("S1", 0, "0.4", "HS").is_none());
}

#[test]
fn extended_records_are_changed() {
    let read = || SpoolRecordExt { tag: Some("t".to_string()), k_info: Some(k_info("S1", "1")) };
    let edited = Store::edited_ext(Ok(read()), None);
    assert!(edited.tag.as_deref() == Some("t") && edited.k_info.is_none());
    let edited = Store::edited_ext(Err(StoreError::ExtFormat), Some(k_info("S2", "2")));
    assert!(edited.tag.is_none());
    assert_eq!(edited.get_calibrations("S2", 0, "0.4", "HS").unwrap().k_value, "2");
    let upgraded = Store::upgraded_ext(Some(read()), None);
    assert!(upgraded.get_calibrations("S1", 0, "0.4", "HS").is_some());
    let upgraded = Store::upgraded_ext(Some(read()), Some(k_info("S2", "2")));
    assert!(upgraded.get_calibrations("S1", 0, "0.4", "HS").is_none());
    assert_eq!(upgraded.tag.as_deref(), Some("t"));
    assert!(Store::upgraded_ext(None, None).k_info.is_none());
    assert!(Store::with_ext(record("1", ""), &upgraded).ext_has_k);
}

#[test]
fn upgraded_spool_knows_of_its_calibrations() {
    let mut store = open_store(vec![record("1", "0A")]);
    store.spool_upgraded("1", true);
    assert!(store.get_spool_by_id("1").unwrap().ext_has_k);
    assert_eq!(store.get_spool_by_hex_tag("0A").unwrap().id, "1");
}

#[test]
fn versions_decide_on_the_file() {
    assert_eq!(check_version("1"), Opening::Upgrade);
    assert_eq!(check_version("1.0.9"), Opening::Upgrade);
    assert_eq!(check_version("1.1.0-rc.1"), Opening::Upgrade);
    assert_eq!(check_version("1.1.0"), Opening::Current);
    assert_eq!(check_version("1.1.1"), Opening::TooNew);
    assert_eq!(check_version("1.10.0"), Opening::TooNew);
    assert_eq!(check_version("2.0.0"), Opening::TooNew);
    assert_eq!(check_version("2"), Opening::Unparsable);
    assert_eq!(check_version(""), Opening::Unparsable);
    assert_eq!(decide_opening(true, false, true), Opening::Upgrade);
    assert_eq!(decide_opening(false, true, true), Opening::Unparsable);
    assert_eq!(decide_opening(true, true, false), Opening::TooNew);
    assert_eq!(decide_opening(true, false, false), Opening::Current);
    assert_eq!(availability(Opening::TooNew, true), Availability { in_use: false, available: false });
    assert_eq!(availability(Opening::Unparsable, true), Availability { in_use: false, available: false });
    assert_eq!(availability(Opening::Current, false), Availability { in_use: true, available: true });
    assert_eq!(availability(Opening::Upgrade, false), Availability { in_use: true, available: false });
    assert_eq!(availability(Opening::Upgrade, true), Availability { in_use: true, available: true });
}
