use spoolease::net::Ipv4Address;
use spoolease::nfc::{erase_ndef_tag, read_ndef_record, Error, RECORD_PAGE};
use spoolease::settings::OTA_DOMAIN_STABLE;
use spoolease::text_map::TextMap;
use spoolease::translations::{escape, language_code, Language, NamedText, SchemaEntry, Translations};
use spoolease::web_app::{
    build_app, config_answer, delete_answer, normalize_list, redirect_html, spools_answer, LogFilter, Method,
    PrinterConfig, PrinterConfigDTO, PrintersConfig, Route, ScaleConfig, ScaleConfigDTO, SpoolsAnswer, StaticFile,
};

#[test]
fn addresses_lead_to_their_pages() {
    for (path, get, post) in [
        ("/", Route::Redirect, Route::MethodNotAllowed),
        ("/styles.css", Route::File(StaticFile::StylesCss), Route::MethodNotAllowed),
        ("/favicon-48x48.png", Route::File(StaticFile::Favicon), Route::MethodNotAllowed),
        ("/encode", Route::File(StaticFile::EncodePage), Route::MethodNotAllowed),
        ("/spools-catalog", Route::File(StaticFile::SpoolsCatalog), Route::MethodNotAllowed),
        ("/inventory", Route::File(StaticFile::InventoryPage), Route::MethodNotAllowed),
        ("/inventory.js", Route::File(StaticFile::InventoryJs), Route::MethodNotAllowed),
        ("/style.css", Route::File(StaticFile::InventoryCss), Route::MethodNotAllowed),
        ("/api/printer-config", Route::PrinterConfig(Method::Get), Route::PrinterConfig(Method::Post)),
        ("/api/scale-config", Route::ScaleConfig(Method::Get), Route::ScaleConfig(Method::Post)),
        ("/api/spools-config", Route::SpoolsConfig(Method::Get), Route::SpoolsConfig(Method::Post)),
        ("/api/filaments-config", Route::FilamentsConfig(Method::Get), Route::FilamentsConfig(Method::Post)),
        ("/api/encode-info", Route::EncodeInfo(Method::Get), Route::EncodeInfo(Method::Post)),
        ("/api/spools", Route::Spools, Route::MethodNotAllowed),
        ("/api/spools/delete", Route::MethodNotAllowed, Route::DeleteSpool),
        ("/api/spools/", Route::NotFound, Route::NotFound),
        ("", Route::NotFound, Route::NotFound),
    ] {
        assert_eq!(build_app(Method::Get, path), get, "{path}");
        assert_eq!(build_app(Method::Post, path), post, "{path}");
    }
}

#[test]
fn files_are_served_under_their_types() {
    assert_eq!((StaticFile::Favicon.content_type(), StaticFile::Favicon.gzipped()), ("image/png", false));
    assert_eq!(StaticFile::SpoolsCatalog.content_type(), "text/plain; charset=utf-8");
    assert!(!StaticFile::SpoolsCatalog.gzipped() && StaticFile::InventoryJs.gzipped());
    assert_eq!(StaticFile::InventoryJs.content_type(), "application/javascript; charset=utf-8");
    assert_eq!(StaticFile::StylesCss.content_type(), StaticFile::InventoryCss.content_type());
    assert_eq!(StaticFile::EncodePage.content_type(), "text/html");
}

#[test]
fn redirect_keeps_the_hash() {
    let page = redirect_html("/config");
    assert_eq!(
        page.html,
        "<!doctype html><script>location.href=location.hash?\"/config\"+location.hash:\"/config\"</script>"
    );
    assert_eq!(page.content_type(), "text/html; charset=utf-8");
    assert_eq!(page.content_length(), page.html.len());
    assert_eq!(redirect_html("é").content_length(), redirect_html("").content_length() + 4);
}

fn printer_dto(ip: Option<&str>) -> PrinterConfigDTO {
    PrinterConfigDTO {
        ip: ip.map(|s| s.to_string()),
        name: Some("P".to_string()),
        serial: None,
        access_code: Some("c".to_string()),
        log_filter: Some(LogFilter::Warn),
        auto_restore_k: true,
    }
}

#[test]
fn printer_config_comes_back() {
    let config = PrinterConfig::from_dto(printer_dto(Some("10.0.0.7")));
    assert_eq!(config.ip, Some(Ipv4Address { a: 10, b: 0, c: 0, d: 7 }));
    let again = PrinterConfig::from_dto(config.to_dto());
    assert_eq!((again.ip, again.name, again.serial), (config.ip, config.name, config.serial));
    assert_eq!((again.access_code, again.log_filter), (config.access_code, config.log_filter));
    assert!(again.auto_restore_k);
    assert!(PrinterConfig::from_dto(printer_dto(Some("10.0.0"))).ip.is_none());
    assert!(PrinterConfig::from_dto(printer_dto(None)).ip.is_none());

    let all = PrintersConfig { printers: vec![config_of("1.2.3.4"), config_of("5.6.7.8")] };
    let dto = all.to_dto(&Some("S".to_string()));
    assert_eq!(dto.printers[1].ip.as_deref(), Some("5.6.7.8"));
    let (back, default_serial) = PrintersConfig::from_dto(dto);
    assert_eq!(default_serial.as_deref(), Some("S"));
    assert_eq!(back.printers.len(), 2);
    assert_eq!(back.printers[0].ip, all.printers[0].ip);
}

fn config_of(ip: &str) -> PrinterConfig {
    PrinterConfig::from_dto(printer_dto(Some(ip)))
}

#[test]
fn scale_config_comes_back() {
    let dto = ScaleConfigDTO { available: true, name: Some("s".to_string()), ip: Some("1.1.1.1".to_string()) };
    let config = ScaleConfig::from_dto(dto);
    let dto = ScaleConfig::to_dto(&Some(config));
    assert_eq!((dto.available, dto.name.as_deref(), dto.ip.as_deref()), (true, Some("s"), Some("1.1.1.1")));
    let unnamed = ScaleConfig::from_dto(ScaleConfigDTO { available: true, name: Some(String::new()), ip: None });
    assert!(unnamed.name.is_none());
    let none = ScaleConfig::to_dto(&None);
    assert!(!none.available && none.name.is_none() && none.ip.is_none());
}

#[test]
fn kept_list_stays() {
    let kept = |s: &str| normalize_list(&Some(s.to_string()));
    assert_eq!(kept(" a\nb\r\nc \n").unwrap(), "a\r\nb\r\nc");
    assert_eq!(kept("a\r\r\nb").unwrap(), "a\r\r\nb");
    assert_eq!(kept("a\n\nb").unwrap(), "a\r\n\r\nb");
    assert!(kept(" \r\n\u{3000}").is_none());
    assert!(normalize_list(&None).is_none());
    for text in [" a\nb\r\nc \n", "\r\n\rx\n\ny\r", "ü\n"] {
        let once = kept(text).unwrap();
        assert_eq!(kept(&once).unwrap(), once);
    }
}

#[test]
fn answers_say_what_went_wrong() {
    assert!(config_answer(Ok(())).error_text.is_none());
    assert_eq!(config_answer(Err("e".to_string())).error_text.as_deref(), Some("e"));
    assert!(matches!(spools_answer(Some("rows".to_string())), SpoolsAnswer::Rows(r) if r == "rows"));
    assert!(matches!(spools_answer(None), SpoolsAnswer::Clear(t) if t.is_empty()));
    let rows = || Some("rows".to_string());
    assert!(matches!(delete_answer(Ok(()), rows()), SpoolsAnswer::Rows(r) if r == "rows"));
    assert!(matches!(delete_answer(Err("no".to_string()), rows()), SpoolsAnswer::Clear(t) if t == "no"));
    assert!(matches!(delete_answer(Ok(()), None), SpoolsAnswer::Clear(t) if t.is_empty()));
    assert_eq!(OTA_DOMAIN_STABLE, "raw.githubusercontent.com");
}

#[test]
fn erased_tag_is_empty() {
    let mut pages = vec![0xe1, 0x10, 0x12, 0x00];
    pages.extend(erase_ndef_tag());
    assert_eq!(read_ndef_record(&pages), Ok(None));
    assert_eq!(RECORD_PAGE, 4);
}

#[test]
fn record_fits_its_pages() {
    assert_eq!(read_ndef_record(&[0xe1, 0, 0, 0, 0x03, 13, 0, 0]), Ok(Some(16)));
    assert_eq!(read_ndef_record(&[0xe1, 0, 0, 0, 0x03, 14, 0, 0]), Ok(Some(20)));
    assert_eq!(read_ndef_record(&[0xe1, 0, 0, 0, 0x03, 0xff, 1, 2]), Ok(Some(264)));
    assert_eq!(read_ndef_record(&[0xe1, 0, 0, 0, 0x03, 0xff, 0xff, 0xff]), Ok(Some(65540)));
    assert_eq!(read_ndef_record(&[0xe0, 0, 0, 0, 0x03, 13, 0, 0]), Err(Error::NotNdefFormatted));
    assert_eq!(read_ndef_record(&[0xe1, 0, 0, 0, 0x01, 13, 0, 0]), Err(Error::NotNdefFormatted));
}

fn entry(key: &str, slint: Option<&str>, web: Option<&str>, rust: bool, en: &str) -> SchemaEntry {
    SchemaEntry {
        key: key.to_string(),
        slint: slint.map(|s| s.to_string()),
        web: web.map(|s| s.to_string()),
        rust,
        en: en.to_string(),
    }
}

fn translations() -> Translations {
    let mut texts = TextMap::new();
    texts.insert("_name".to_string(), "Deutsch".to_string());
    texts.insert("ok".to_string(), "Gut".to_string());
    Translations {
        schema: vec![
            entry("cancel", Some("cancel"), Some("c"), true, "Cancel"),
            entry("ok", Some("ok"), Some("k"), true, "OK"),
            entry("only_web", None, Some("k"), false, "Web"),
        ],
        languages: vec![
            Language { code: "de".to_string(), texts },
            Language { code: "xx".to_string(), texts: TextMap::new() },
        ],
    }
}

fn pairs(v: Vec<NamedText>) -> Vec<(String, String)> {
    v.into_iter().map(|t| (t.name, t.text)).collect()
}

#[test]
fn english_stands_for_what_is_missing() {
    let t = translations();
    assert_eq!(t.tr_rust("de", "ok"), "Gut");
    assert_eq!(t.tr_rust("de", "cancel"), "Cancel");
    assert_eq!(t.tr_rust("fr", "ok"), "OK");
    assert_eq!(t.tr_rust("de", "only_web"), "only_web");
    let shown = |l: Option<&str>| pairs(t.slint_translations(l)).into_iter().map(|p| p.1).collect::<Vec<_>>();
    assert_eq!(shown(Some("de")), vec!["Cancel", "Gut"]);
    assert_eq!(shown(Some("fr")), vec!["Cancel", "OK"]);
    assert_eq!(shown(None), vec!["Cancel", "OK"]);
    let web = t.web_translations("de");
    assert_eq!((web.len(), web.get("c").unwrap().as_str(), web.get("k").unwrap().as_str()), (2, "Cancel", "Web"));
    assert_eq!(t.web_translations("en").len(), 0);
    let languages = pairs(t.available_languages());
    assert_eq!(languages[0], ("en".to_string(), "English".to_string()));
    assert_eq!(languages[1], ("de".to_string(), "Deutsch".to_string()));
    assert_eq!(languages[2], ("xx".to_string(), "xx".to_string()));
}

const SOURCE: &str = r####"use slint::ComponentHandle;

pub fn apply_slint_translations(
    ui_weak: &slint::Weak<crate::app::AppWindow>,
    language: &str,
) {
    let ui = ui_weak.unwrap();
    let tr = ui.global::<crate::app::Translations>();
    match language {
        "de" => {
            tr.set_tr_cancel("Cancel".into());
            tr.set_tr_ok("\"Gut\"\n".into());
        }
        "xx" => {
            tr.set_tr_cancel("Cancel".into());
            tr.set_tr_ok("OK".into());
        }
        "en" | _ => {
            tr.set_tr_cancel("Cancel".into());
            tr.set_tr_ok("OK".into());
        }
    }
}

pub fn get_web_translations_json(lang: &str) -> &'static str {
    match lang {
        "de" => r##"{"c":"Cancel","k":"\"Gut\"\n"}"##,
        "xx" => r##"{"c":"Cancel","k":"OK"}"##,
        _ => "{}",
    }
}

pub fn get_available_languages() -> &'static [(&'static str, &'static str)] {
    &[
        ("en", "English"),
        ("de", "Deutsch"),
        ("xx", "xx"),
    ]
}
pub fn tr_rust<'a>(lang: &str, key: &'a str) -> &'a str {
    match (lang, key) {
        ("de", "cancel") => "Cancel",
        ("de", "ok") => "\"Gut\"\n",
        ("xx", "cancel") => "Cancel",
        ("xx", "ok") => "OK",
        (_, "cancel") => "Cancel",
        (_, "ok") => "OK",
        (_, _) => key,
    }
}
"####;

#[test]
fn translations_become_source() {
    let mut t = translations();
    t.languages[0].texts.insert("ok".to_string(), "\"Gut\"\n".to_string());
    t.schema.pop();
    assert_eq!(t.generated_source(), SOURCE);
    let tables = vec!["[1]".to_string(), "[2]".to_string()];
    let with = t.source_with(&tables);
    assert!(with.contains("        \"de\" => r##\"[1]\"##,\n        \"xx\" => r##\"[2]\"##,\n        _ =>"));
    let none = Translations { schema: Vec::new(), languages: Vec::new() };
    assert!(none.generated_source().ends_with("    match (lang, key) {\n        (_, _) => key,\n    }\n}\n"));
}

#[test]
fn web_texts_are_in_the_order_of_their_keys() {
    let mut t = translations();
    t.schema.reverse();
    let source = t.generated_source();
    assert!(source.contains("\"de\" => r##\"{\"c\":\"Cancel\",\"k\":\"Gut\"}\"##,\n"));
}

#[test]
fn files_name_their_languages() {
    assert_eq!(language_code("de.json").unwrap(), "de");
    assert_eq!(language_code("de.json.json").unwrap(), "de");
    assert_eq!(language_code(".json").unwrap(), "");
    assert!(language_code("en.json").is_none());
    assert!(language_code("de.txt").is_none());
}

#[test]
fn literal_reads_back() {
    assert_eq!(escape("a\"b\\c\nd\re"), "a\\\"b\\\\c\\nd\\re");
    assert_eq!(escape("\\n"), "\\\\n");
    assert_eq!(escape(""), "");
}
