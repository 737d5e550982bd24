//! The web pages of the console: which address leads where, what the pages exchange
//! with the configuration, and what they are answered.

use crate::net::{address, address_reads_back, Ipv4Address};
use crate::text::{
    append, chars_of, is_blank, lemma_head_stays, occurrence_is_replaced, replace, replaced, same_text, starts_with,
    text_of, trim, trim_end, trim_start, trimmed, white_space, white_space_around_is_cut_off,
};
use vstd::prelude::*;
use vstd::utf8::encode_utf8;

verus! {

/// A file that is served as it is.
#[derive(Clone, Copy, Debug, PartialEq, Eq, Structural)]
pub enum StaticFile {
    StylesCss,
    Favicon,
    EncodePage,
    SpoolsCatalog,
    InventoryPage,
    InventoryJs,
    InventoryCss,
}

impl StaticFile {
    /// The type under which the file is served.
    pub open spec fn media_type(self) -> Seq<char> {
        match self {
            StaticFile::StylesCss => "text/css"@,
            StaticFile::Favicon => "image/png"@,
            StaticFile::EncodePage => "text/html"@,
            StaticFile::SpoolsCatalog => "text/plain; charset=utf-8"@,
            StaticFile::InventoryPage => "text/html"@,
            StaticFile::InventoryJs => "application/javascript; charset=utf-8"@,
            StaticFile::InventoryCss => "text/css"@,
        }
    }

    /// The type under which the file is served.
    pub fn content_type(&self) -> (r: &'static str)
        ensures
            r@ == self.media_type(),
    {
        match self {
            StaticFile::StylesCss => "text/css",
            StaticFile::Favicon => "image/png",
            StaticFile::EncodePage => "text/html",
            StaticFile::SpoolsCatalog => "text/plain; charset=utf-8",
            StaticFile::InventoryPage => "text/html",
            StaticFile::InventoryJs => "application/javascript; charset=utf-8",
            StaticFile::InventoryCss => "text/css",
        }
    }

    /// Whether the file is served compressed.
    pub fn gzipped(&self) -> (r: bool)
        ensures
            r == (*self != StaticFile::Favicon && *self != StaticFile::SpoolsCatalog),
    {
        match self {
            StaticFile::Favicon => false,
            StaticFile::SpoolsCatalog => false,
            _ => true,
        }
    }
}

/// How a page is asked for.
#[derive(Clone, Copy, Debug, PartialEq, Eq, Structural)]
pub enum Method {
    Get,
    Post,
}

/// Where an address leads.
#[derive(Clone, Copy, Debug, PartialEq, Eq, Structural)]
pub enum Route {
    /// The page that leads on to the current application.
    Redirect,
    File(StaticFile),
    PrinterConfig(Method),
    ScaleConfig(Method),
    SpoolsConfig(Method),
    FilamentsConfig(Method),
    EncodeInfo(Method),
    Spools,
    DeleteSpool,
    /// There is such a page, but it cannot be asked for like this.
    MethodNotAllowed,
    /// There is no such page.
    NotFound,
}

/// A page that can only be got.
pub open spec fn get_only(method: Method, route: Route) -> Route {
    match method {
        Method::Get => route,
        Method::Post => Route::MethodNotAllowed,
    }
}

/// Where an address leads.
pub open spec fn route_of(method: Method, path: Seq<char>) -> Route {
    if path == "/"@ {
        get_only(method, Route::Redirect)
    } else if path == "/styles.css"@ {
        get_only(method, Route::File(StaticFile::StylesCss))
    } else if path == "/favicon-48x48.png"@ {
        get_only(method, Route::File(StaticFile::Favicon))
    } else if path == "/encode"@ {
        get_only(method, Route::File(StaticFile::EncodePage))
    } else if path == "/api/printer-config"@ {
        Route::PrinterConfig(method)
    } else if path == "/api/scale-config"@ {
        Route::ScaleConfig(method)
    } else if path == "/spools-catalog"@ {
        get_only(method, Route::File(StaticFile::SpoolsCatalog))
    } else if path == "/api/spools-config"@ {
        Route::SpoolsConfig(method)
    } else if path == "/api/filaments-config"@ {
        Route::FilamentsConfig(method)
    } else if path == "/api/encode-info"@ {
        Route::EncodeInfo(method)
    } else if path == "/api/spools"@ {
        get_only(method, Route::Spools)
    } else if path == "/api/spools/delete"@ {
        match method {
            Method::Get => Route::MethodNotAllowed,
            Method::Post => Route::DeleteSpool,
        }
    } else if path == "/inventory"@ {
        get_only(method, Route::File(StaticFile::InventoryPage))
    } else if path == "/inventory.js"@ {
        get_only(method, Route::File(StaticFile::InventoryJs))
    } else if path == "/style.css"@ {
        get_only(method, Route::File(StaticFile::InventoryCss))
    } else {
        Route::NotFound
    }
}

fn got(method: Method, route: Route) -> (r: Route)
    ensures
        r == get_only(method, route),
{
    match method {
        Method::Get => route,
        Method::Post => Route::MethodNotAllowed,
    }
}

/// Finds where an address leads.
pub fn build_app(method: Method, path: &str) -> (r: Route)
    ensures
        r == route_of(method, path@),
{
    if same_text(path, "/") {
        got(method, Route::Redirect)
    } else if same_text(path, "/styles.css") {
        got(method, Route::File(StaticFile::StylesCss))
    } else if same_text(path, "/favicon-48x48.png") {
        got(method, Route::File(StaticFile::Favicon))
    } else if same_text(path, "/encode") {
        got(method, Route::File(StaticFile::EncodePage))
    } else if same_text(path, "/api/printer-config") {
        Route::PrinterConfig(method)
    } else if same_text(path, "/api/scale-config") {
        Route::ScaleConfig(method)
    } else if same_text(path, "/spools-catalog") {
        got(method, Route::File(StaticFile::SpoolsCatalog))
    } else if same_text(path, "/api/spools-config") {
        Route::SpoolsConfig(method)
    } else if same_text(path, "/api/filaments-config") {
        Route::FilamentsConfig(method)
    } else if same_text(path, "/api/encode-info") {
        Route::EncodeInfo(method)
    } else if same_text(path, "/api/spools") {
        got(method, Route::Spools)
    } else if same_text(path, "/api/spools/delete") {
        match method {
            Method::Get => Route::MethodNotAllowed,
            Method::Post => Route::DeleteSpool,
        }
    } else if same_text(path, "/inventory") {
        got(method, Route::File(StaticFile::InventoryPage))
    } else if same_text(path, "/inventory.js") {
        got(method, Route::File(StaticFile::InventoryJs))
    } else if same_text(path, "/style.css") {
        got(method, Route::File(StaticFile::InventoryCss))
    } else {
        Route::NotFound
    }
}

/// A page of text.
#[derive(Debug)]
pub struct HtmlStringResponse {
    pub html: String,
}

impl HtmlStringResponse {
    /// The page with this text.
    pub fn new(html: String) -> (r: Self)
        ensures
            r.html == html,
    {
        HtmlStringResponse { html }
    }

    /// The type under which the page is served.
    pub fn content_type(&self) -> (r: &'static str)
        ensures
            r@ == "text/html; charset=utf-8"@,
    {
        "text/html; charset=utf-8"
    }

    /// The number of bytes of the page.
    pub fn content_length(&self) -> (r: usize)
        ensures
            r == encode_utf8(self.html@).len(),
    {
        self.html.as_str().as_bytes().len()
    }
}

/// The page that leads on to an address, and keeps what stands behind the hash sign.
pub open spec fn redirect_page(url: Seq<char>) -> Seq<char> {
    "<!doctype html><script>location.href=location.hash?\""@ + url + "\"+location.hash:\""@ + url + "\"</script>"@
}

/// Writes the page that leads on to an address.
pub fn redirect_html(url: &str) -> (r: HtmlStringResponse)
    ensures
        r.html@ == redirect_page(url@),
{
    let mut page = chars_of("<!doctype html><script>location.href=location.hash?\"");
    let target = chars_of(url);
    let middle = chars_of("\"+location.hash:\"");
    let end = chars_of("\"</script>");
    append(&mut page, target.as_slice());
    append(&mut page, middle.as_slice());
    append(&mut page, target.as_slice());
    append(&mut page, end.as_slice());
    HtmlStringResponse::new(text_of(page.as_slice()))
}

/// What is logged of a printer.
#[derive(Clone, Copy, Debug, PartialEq, Eq, Structural)]
pub enum LogFilter {
    Off,
    Error,
    Warn,
    Info,
    Debug,
    Trace,
}

/// The configuration of a printer.
#[derive(Debug)]
pub struct PrinterConfig {
    pub ip: Option<Ipv4Address>,
    pub name: Option<String>,
    pub serial: Option<String>,
    pub access_code: Option<String>,
    pub log_filter: Option<LogFilter>,
    pub auto_restore_k: bool,
}

/// The configuration of a printer as the pages exchange it.
#[derive(Debug)]
pub struct PrinterConfigDTO {
    pub ip: Option<String>,
    pub name: Option<String>,
    pub serial: Option<String>,
    pub access_code: Option<String>,
    pub log_filter: Option<LogFilter>,
    pub auto_restore_k: bool,
}

/// The address in an optional text; nothing where the text is none.
pub open spec fn optional_address(text: Option<String>) -> Option<Ipv4Address> {
    match text {
        Some(s) => address(s@),
        None => None,
    }
}

/// An optional address as text.
pub open spec fn address_text(ip: Option<Ipv4Address>) -> Option<Seq<char>> {
    match ip {
        Some(ip) => Some(ip.dotted()),
        None => None,
    }
}

/// An optional text by its characters.
pub open spec fn optional_text(text: Option<String>) -> Option<Seq<char>> {
    match text {
        Some(s) => Some(s@),
        None => None,
    }
}

fn read_address(text: &Option<String>) -> (r: Option<Ipv4Address>)
    ensures
        r == optional_address(*text),
{
    match text {
        Some(s) => Ipv4Address::parse(s.as_str()),
        None => None,
    }
}

fn write_address(ip: Option<Ipv4Address>) -> (r: Option<String>)
    ensures
        optional_text(r) == address_text(ip),
{
    match ip {
        Some(ip) => Some(ip.text()),
        None => None,
    }
}

fn copy_text(text: &Option<String>) -> (r: Option<String>)
    ensures
        r == *text,
{
    match text {
        Some(s) => Some(s.clone()),
        None => None,
    }
}

impl PrinterConfig {
    /// The configuration that a page gives; an address that is none is dropped.
    pub open spec fn given_by(dto: PrinterConfigDTO) -> PrinterConfig {
        PrinterConfig {
            ip: optional_address(dto.ip),
            name: dto.name,
            serial: dto.serial,
            access_code: dto.access_code,
            log_filter: dto.log_filter,
            auto_restore_k: dto.auto_restore_k,
        }
    }

    /// Takes the configuration of a printer from a page.
    pub fn from_dto(v: PrinterConfigDTO) -> (r: Self)
        ensures
            r == Self::given_by(v),
    {
        Self::read_dto(&v)
    }

    fn read_dto(v: &PrinterConfigDTO) -> (r: Self)
        ensures
            r == Self::given_by(*v),
    {
        PrinterConfig {
            ip: read_address(&v.ip),
            name: copy_text(&v.name),
            serial: copy_text(&v.serial),
            access_code: copy_text(&v.access_code),
            log_filter: v.log_filter,
            auto_restore_k: v.auto_restore_k,
        }
    }

    /// The configuration as a page gets it.
    pub open spec fn shown_as(self, dto: PrinterConfigDTO) -> bool {
        &&& optional_text(dto.ip) == address_text(self.ip)
        &&& dto.name == self.name
        &&& dto.serial == self.serial
        &&& dto.access_code == self.access_code
        &&& dto.log_filter == self.log_filter
        &&& dto.auto_restore_k == self.auto_restore_k
    }

    /// Gives the configuration of a printer to a page.
    pub fn to_dto(&self) -> (r: PrinterConfigDTO)
        ensures
            self.shown_as(r),
    {
        PrinterConfigDTO {
            ip: write_address(self.ip),
            name: copy_text(&self.name),
            serial: copy_text(&self.serial),
            access_code: copy_text(&self.access_code),
            log_filter: self.log_filter,
            auto_restore_k: self.auto_restore_k,
        }
    }
}

/// A printer configuration that goes to a page and comes back unchanged is the same.
pub proof fn printer_config_comes_back(config: PrinterConfig, dto: PrinterConfigDTO)
    requires
        config.shown_as(dto),
    ensures
        optional_address(dto.ip) == config.ip,
        config == PrinterConfig::given_by(dto),
{
    if let Some(ip) = config.ip {
        address_reads_back(ip);
    }
}

/// The configuration of the printers.
#[derive(Debug)]
pub struct PrintersConfig {
    pub printers: Vec<PrinterConfig>,
}

/// The configuration of the printers as the pages exchange it.
#[derive(Debug)]
pub struct PrintersConfigDTO {
    pub printers: Vec<PrinterConfigDTO>,
    pub default_printer_serial: Option<String>,
}

impl PrintersConfig {
    /// Takes the configuration of the printers from a page, in its order, and with it
    /// the serial number of the default printer.
    pub fn from_dto(v: PrintersConfigDTO) -> (r: (Self, Option<String>))
        ensures
            r.1 == v.default_printer_serial,
            r.0.printers@.len() == v.printers@.len(),
            forall|i: int|
                0 <= i < v.printers@.len() ==> #[trigger] r.0.printers@[i] == PrinterConfig::given_by(v.printers@[i]),
    {
        let mut printers: Vec<PrinterConfig> = Vec::new();
        let mut i: usize = 0;
        while i < v.printers.len()
            invariant
                i <= v.printers@.len(),
                printers@.len() == i,
                forall|j: int|
                    0 <= j < i ==> #[trigger] printers@[j] == PrinterConfig::given_by(v.printers@[j]),
            decreases v.printers@.len() - i,
        {
            printers.push(PrinterConfig::read_dto(&v.printers[i]));
            i += 1;
        }
        (PrintersConfig { printers }, v.default_printer_serial)
    }

    /// Gives the configuration of the printers to a page, in its order.
    pub fn to_dto(&self, default_printer_serial: &Option<String>) -> (r: PrintersConfigDTO)
        ensures
            r.default_printer_serial == *default_printer_serial,
            r.printers@.len() == self.printers@.len(),
            forall|i: int| 0 <= i < self.printers@.len() ==> (#[trigger] self.printers@[i]).shown_as(r.printers@[i]),
    {
        let mut printers: Vec<PrinterConfigDTO> = Vec::new();
        let mut i: usize = 0;
        while i < self.printers.len()
            invariant
                i <= self.printers@.len(),
                printers@.len() == i,
                forall|j: int| 0 <= j < i ==> (#[trigger] self.printers@[j]).shown_as(printers@[j]),
            decreases self.printers@.len() - i,
        {
            printers.push(self.printers[i].to_dto());
            i += 1;
        }
        PrintersConfigDTO { printers, default_printer_serial: copy_text(default_printer_serial) }
    }
}

/// The configuration of the scale.
#[derive(Debug)]
pub struct ScaleConfig {
    pub available: bool,
    pub ip: Option<Ipv4Address>,
    pub name: Option<String>,
}

/// The configuration of the scale as the pages exchange it.
#[derive(Debug)]
pub struct ScaleConfigDTO {
    pub available: bool,
    pub name: Option<String>,
    pub ip: Option<String>,
}

impl ScaleConfig {
    /// Takes the configuration of the scale from a page; an address that is none and an
    /// empty name are dropped.
    pub fn from_dto(v: ScaleConfigDTO) -> (r: Self)
        ensures
            r == (ScaleConfig {
                available: v.available,
                ip: optional_address(v.ip),
                name: if v.name is Some && v.name->0@.len() == 0 {
                    None
                } else {
                    v.name
                },
            }),
    {
        let ip = read_address(&v.ip);
        let name = match v.name {
            Some(name) => {
                if is_blank(name.as_str()) {
                    None
                } else {
                    Some(name)
                }
            },
            None => None,
        };
        ScaleConfig { available: v.available, ip, name }
    }

    /// The configuration as a page gets it.
    pub open spec fn shown_as(self, dto: ScaleConfigDTO) -> bool {
        &&& dto.available == self.available
        &&& dto.name == self.name
        &&& optional_text(dto.ip) == address_text(self.ip)
    }

    /// Gives the configuration of the scale to a page: without one there is no scale.
    pub fn to_dto(config: &Option<ScaleConfig>) -> (r: ScaleConfigDTO)
        ensures
            match config {
                Some(c) => c.shown_as(r),
                None => !r.available && r.name is None && r.ip is None,
            },
    {
        match config {
            Some(c) => ScaleConfigDTO {
                available: c.available,
                ip: write_address(c.ip),
                name: copy_text(&c.name),
            },
            None => ScaleConfigDTO { available: false, name: None, ip: None },
        }
    }
}

/// A scale configuration without an empty name that goes to a page and comes back
/// unchanged is the same.
pub proof fn scale_config_comes_back(config: ScaleConfig, dto: ScaleConfigDTO)
    requires
        config.shown_as(dto),
        config.name is Some ==> config.name->0@.len() > 0,
    ensures
        config == (ScaleConfig {
            available: dto.available,
            ip: optional_address(dto.ip),
            name: if dto.name is Some && dto.name->0@.len() == 0 {
                None
            } else {
                dto.name
            },
        }),
{
    if let Some(ip) = config.ip {
        address_reads_back(ip);
    }
}

/// A text with every line feed as carriage return and line feed.
pub open spec fn with_crlf(s: Seq<char>) -> Seq<char> {
    replaced(replaced(s, seq!['\r', '\n'], seq!['\n']), seq!['\n'], seq!['\r', '\n'])
}

/// A list of the configuration as it is kept: without white space around it, and with
/// every line ended in one way. A list of nothing but white space is none.
pub open spec fn kept_list(list: Option<Seq<char>>) -> Option<Seq<char>> {
    match list {
        Some(s) => if trimmed(s).len() > 0 {
            Some(with_crlf(trimmed(s)))
        } else {
            None
        },
        None => None,
    }
}

/// Brings a list of the configuration into the form in which it is kept.
pub fn normalize_list(list: &Option<String>) -> (r: Option<String>)
    ensures
        optional_text(r) == kept_list(optional_text(*list)),
{
    match list {
        Some(text) => {
            let chars = chars_of(text.as_str());
            let inner = trim(chars.as_slice());
            if inner.len() > 0 {
                let mut crlf: Vec<char> = Vec::new();
                crlf.push('\r');
                crlf.push('\n');
                let mut lf: Vec<char> = Vec::new();
                lf.push('\n');
                proof {
                    assert(crlf@ =~= seq!['\r', '\n']);
                    assert(lf@ =~= seq!['\n']);
                }
                let plain = replace(inner.as_slice(), crlf.as_slice(), lf.as_slice());
                let kept = replace(plain.as_slice(), lf.as_slice(), crlf.as_slice());
                Some(text_of(kept.as_slice()))
            } else {
                None
            }
        },
        None => None,
    }
}

proof fn lemma_crlf_undone(u: Seq<char>)
    ensures
        replaced(replaced(u, seq!['\n'], seq!['\r', '\n']), seq!['\r', '\n'], seq!['\n']) == u,
        replaced(u, seq!['\n'], seq!['\r', '\n']).len() > 0 ==> replaced(u, seq!['\n'], seq!['\r', '\n'])[0] != '\n',
        u.len() == 0 ==> replaced(u, seq!['\n'], seq!['\r', '\n']).len() == 0,
    decreases u.len(),
{
    let lf = seq!['\n'];
    let crlf = seq!['\r', '\n'];
    let t = replaced(u, lf, crlf);
    if u.len() > 0 {
        lemma_crlf_undone(u.skip(1));
        let rest = replaced(u.skip(1), lf, crlf);
        if u[0] == '\n' {
            assert(u.take(1) =~= lf);
            assert(t == crlf + rest);
            assert(t.take(2) =~= crlf);
            assert(t.skip(2) =~= rest);
            assert(replaced(t, crlf, lf) == lf + replaced(rest, crlf, lf));
            assert(lf + u.skip(1) =~= u);
        } else {
            assert(u.take(1)[0] != lf[0]);
            assert(t == seq![u[0]] + rest);
            assert(!starts_with(t, crlf)) by {
                if starts_with(t, crlf) {
                    assert(t.take(2)[1] == '\n');
                    assert(t[1] == rest[0]);
                }
            }
            assert(t.skip(1) =~= rest);
            assert(replaced(t, crlf, lf) == seq![t[0]] + replaced(rest, crlf, lf));
            assert(seq![u[0]] + u.skip(1) =~= u);
        }
    }
}

proof fn lemma_trimmed_ends(s: Seq<char>)
    ensures
        trimmed(s).len() > 0 ==> !white_space(trimmed(s)[0]) && !white_space(trimmed(s).last()),
{
    lemma_trim_start(s);
    lemma_trim_end(trim_start(s));
}

proof fn lemma_trim_start(s: Seq<char>)
    ensures
        trim_start(s).len() > 0 ==> !white_space(trim_start(s)[0]),
    decreases s.len(),
{
    if s.len() > 0 && white_space(s[0]) {
        lemma_trim_start(s.skip(1));
    }
}

proof fn lemma_trim_end(s: Seq<char>)
    ensures
        trim_end(s).len() > 0 ==> !white_space(trim_end(s).last()) && trim_end(s)[0] == s[0],
    decreases s.len(),
{
    if s.len() > 0 && white_space(s.last()) {
        lemma_trim_end(s.drop_last());
    }
}

/// Replacing line ends by line ends keeps a first and a last character that are none.
proof fn lemma_replaced_ends(s: Seq<char>, from: Seq<char>, to: Seq<char>)
    requires
        s.len() > 0,
        from.len() > 0,
        forall|i: int| 0 <= i < from.len() ==> white_space(#[trigger] from[i]),
        !white_space(s.last()),
    ensures
        replaced(s, from, to).len() > 0,
        replaced(s, from, to).last() == s.last(),
        !white_space(s[0]) ==> replaced(s, from, to)[0] == s[0],
    decreases s.len(),
{
    if starts_with(s, from) {
        assert(s.take(from.len() as int)[0] == from[0]);
        assert(white_space(s[0]));
        let rest = s.skip(from.len() as int);
        if rest.len() == 0 {
            assert(s.take(from.len() as int).last() == from.last());
            assert(s.last() == from[from.len() - 1]);
        } else {
            assert(rest.last() == s.last());
            lemma_replaced_ends(rest, from, to);
        }
    } else {
        let rest = s.skip(1);
        if rest.len() > 0 {
            assert(rest.last() == s.last());
            lemma_replaced_ends(rest, from, to);
        } else {
            assert(replaced(rest, from, to).len() == 0);
        }
    }
}

/// A list that is kept is kept as it is when it comes back.
pub proof fn kept_list_stays(list: Option<Seq<char>>)
    ensures
        kept_list(kept_list(list)) == kept_list(list),
{
    if let Some(s) = list {
        let t = trimmed(s);
        if t.len() > 0 {
            let lf = seq!['\n'];
            let crlf = seq!['\r', '\n'];
            lemma_trimmed_ends(s);
            let u = replaced(t, crlf, lf);
            lemma_replaced_ends(t, crlf, lf);
            let k = replaced(u, lf, crlf);
            lemma_replaced_ends(u, lf, crlf);
            assert(trim_start(k) == k);
            assert(trim_end(k) == k);
            lemma_crlf_undone(u);
            assert(with_crlf(k) == k);
        }
    }
}

/// The answer to a change of the configuration.
#[derive(Debug)]
pub struct SetConfigResponseDTO {
    pub error_text: Option<String>,
}

/// Answers a change of the configuration: nothing is said of one that succeeded.
pub fn config_answer(result: Result<(), String>) -> (r: SetConfigResponseDTO)
    ensures
        r.error_text == (match result {
            Ok(()) => None,
            Err(e) => Some(e),
        }),
{
    match result {
        Ok(()) => SetConfigResponseDTO { error_text: None },
        Err(e) => SetConfigResponseDTO { error_text: Some(e) },
    }
}

/// What a page with the spools is answered.
#[derive(Debug)]
pub enum SpoolsAnswer {
    /// The rows, to be encrypted.
    Rows(String),
    /// A text in the clear.
    Clear(String),
}

/// Answers with the rows of the spools, or with an empty text where there are none to be
/// had.
pub fn spools_answer(rows: Option<String>) -> (r: SpoolsAnswer)
    ensures
        match rows {
            Some(csv) => r == SpoolsAnswer::Rows(csv),
            None => r matches SpoolsAnswer::Clear(text) && text@.len() == 0,
        },
{
    match rows {
        Some(csv) => SpoolsAnswer::Rows(csv),
        None => SpoolsAnswer::Clear(String::new()),
    }
}

/// Answers the deletion of a spool: with the rows that are left, or with what went
/// wrong.
pub fn delete_answer(deleted: Result<(), String>, rows: Option<String>) -> (r: SpoolsAnswer)
    ensures
        match deleted {
            Err(text) => r == SpoolsAnswer::Clear(text),
            Ok(()) => match rows {
                Some(csv) => r == SpoolsAnswer::Rows(csv),
                None => r matches SpoolsAnswer::Clear(text) && text@.len() == 0,
            },
        },
{
    match deleted {
        Err(text) => SpoolsAnswer::Clear(text),
        Ok(()) => spools_answer(rows),
    }
}

/// What is to be encoded on a tag, as the page for it has it.
#[derive(Debug)]
pub struct EncodeInfoDTO {
    pub brand: String,
    pub color_name: String,
    pub filament_subtype: String,
    pub note: String,
}

/// The spool that is to be deleted.
#[derive(Debug)]
pub struct DeleteSpoolDTO {
    pub id: String,
}

/// Every page has its own address, and can be asked for as it is meant to be. There is no
/// page at any other address.
pub proof fn addresses_lead_to_their_pages(method: Method, path: Seq<char>)
    ensures
        ({
            let r = route_of(method, path);
            let got = method == Method::Get;
            &&& r == Route::Redirect <==> got && path == "/"@
            &&& r == Route::File(StaticFile::StylesCss) <==> got && path == "/styles.css"@
            &&& r == Route::File(StaticFile::Favicon) <==> got && path == "/favicon-48x48.png"@
            &&& r == Route::File(StaticFile::EncodePage) <==> got && path == "/encode"@
            &&& r == Route::File(StaticFile::SpoolsCatalog) <==> got && path == "/spools-catalog"@
            &&& r == Route::File(StaticFile::InventoryPage) <==> got && path == "/inventory"@
            &&& r == Route::File(StaticFile::InventoryJs) <==> got && path == "/inventory.js"@
            &&& r == Route::File(StaticFile::InventoryCss) <==> got && path == "/style.css"@
            &&& r == Route::PrinterConfig(method) <==> path == "/api/printer-config"@
            &&& r == Route::ScaleConfig(method) <==> path == "/api/scale-config"@
            &&& r == Route::SpoolsConfig(method) <==> path == "/api/spools-config"@
            &&& r == Route::FilamentsConfig(method) <==> path == "/api/filaments-config"@
            &&& r == Route::EncodeInfo(method) <==> path == "/api/encode-info"@
            &&& r == Route::Spools <==> got && path == "/api/spools"@
            &&& r == Route::DeleteSpool <==> !got && path == "/api/spools/delete"@
            &&& r is NotFound <==> path != "/"@ && path != "/styles.css"@ && path != "/favicon-48x48.png"@ && path
                != "/encode"@ && path != "/spools-catalog"@ && path != "/inventory"@ && path != "/inventory.js"@ && path
                != "/style.css"@ && path != "/api/printer-config"@ && path != "/api/scale-config"@ && path
                != "/api/spools-config"@ && path != "/api/filaments-config"@ && path != "/api/encode-info"@ && path
                != "/api/spools"@ && path != "/api/spools/delete"@
            &&& r is PrinterConfig ==> r == Route::PrinterConfig(method)
            &&& r is ScaleConfig ==> r == Route::ScaleConfig(method)
            &&& r is SpoolsConfig ==> r == Route::SpoolsConfig(method)
            &&& r is FilamentsConfig ==> r == Route::FilamentsConfig(method)
            &&& r is EncodeInfo ==> r == Route::EncodeInfo(method)
        }),
{
    reveal_strlit("/");
    reveal_strlit("/styles.css");
    reveal_strlit("/favicon-48x48.png");
    reveal_strlit("/encode");
    reveal_strlit("/spools-catalog");
    reveal_strlit("/inventory");
    reveal_strlit("/inventory.js");
    reveal_strlit("/style.css");
    reveal_strlit("/api/printer-config");
    reveal_strlit("/api/scale-config");
    reveal_strlit("/api/spools-config");
    reveal_strlit("/api/filaments-config");
    reveal_strlit("/api/encode-info");
    reveal_strlit("/api/spools");
    reveal_strlit("/api/spools/delete");
    assert("/"@.len() == 1 && "/encode"@.len() == 7);
    assert("/styles.css"@.len() == 11 && "/api/spools"@.len() == 11);
    assert("/styles.css"@[1] == 's' && "/api/spools"@[1] == 'a');
    assert("/inventory"@.len() == 10 && "/style.css"@.len() == 10);
    assert("/inventory"@[1] == 'i' && "/style.css"@[1] == 's');
    assert("/favicon-48x48.png"@.len() == 18 && "/api/spools-config"@.len() == 18 && "/api/spools/delete"@.len() == 18);
    assert("/favicon-48x48.png"@[1] == 'f' && "/api/spools-config"@[1] == 'a' && "/api/spools/delete"@[1] == 'a');
    assert("/api/spools-config"@[11] == '-' && "/api/spools/delete"@[11] == '/');
    assert("/inventory.js"@.len() == 13 && "/spools-catalog"@.len() == 15 && "/api/encode-info"@.len() == 16);
    assert("/api/scale-config"@.len() == 17 && "/api/printer-config"@.len() == 19 && "/api/filaments-config"@.len() == 21);
}

/// Every file is served under its type.
pub proof fn files_have_their_types(file: StaticFile)
    ensures
        file.media_type() == "text/css"@ <==> file == StaticFile::StylesCss || file == StaticFile::InventoryCss,
        file.media_type() == "image/png"@ <==> file == StaticFile::Favicon,
        file.media_type() == "text/html"@ <==> file == StaticFile::EncodePage || file == StaticFile::InventoryPage,
        file.media_type() == "text/plain; charset=utf-8"@ <==> file == StaticFile::SpoolsCatalog,
        file.media_type() == "application/javascript; charset=utf-8"@ <==> file == StaticFile::InventoryJs,
{
    reveal_strlit("text/css");
    reveal_strlit("image/png");
    reveal_strlit("text/html");
    reveal_strlit("text/plain; charset=utf-8");
    reveal_strlit("application/javascript; charset=utf-8");
    assert("image/png"@[0] == 'i' && "text/html"@[0] == 't');
    assert("text/css"@.len() == 8 && "text/html"@.len() == 9 && "text/plain; charset=utf-8"@.len() == 25);
    assert("application/javascript; charset=utf-8"@.len() == 37);
}

/// The page that leads on names the address twice: with what stands behind the hash sign,
/// and without.
pub proof fn redirect_keeps_the_hash(url: Seq<char>)
    ensures
        redirect_page(url) == "<!doctype html><script>location.href=location.hash?\""@ + url + "\"+location.hash:\""@ + url
            + "\"</script>"@,
{
}

/// A printer is configured as the page says, but for an address that is none.
pub proof fn printer_is_configured_as_given(dto: PrinterConfigDTO)
    ensures
        PrinterConfig::given_by(dto).name == dto.name,
        PrinterConfig::given_by(dto).serial == dto.serial,
        PrinterConfig::given_by(dto).access_code == dto.access_code,
        PrinterConfig::given_by(dto).log_filter == dto.log_filter,
        PrinterConfig::given_by(dto).auto_restore_k == dto.auto_restore_k,
        dto.ip is None ==> PrinterConfig::given_by(dto).ip is None,
        dto.ip is Some ==> PrinterConfig::given_by(dto).ip == address(dto.ip->0@),
{
}

/// A page is shown what is configured.
pub proof fn pages_show_what_is_configured(printer: PrinterConfig, dto: PrinterConfigDTO, scale: ScaleConfig, scale_dto: ScaleConfigDTO)
    ensures
        printer.shown_as(dto) ==> dto.name == printer.name && dto.serial == printer.serial && dto.access_code
            == printer.access_code && dto.log_filter == printer.log_filter && dto.auto_restore_k
            == printer.auto_restore_k && (dto.ip is Some <==> printer.ip is Some) && (printer.ip is Some ==> dto.ip->0@
            == printer.ip->0.dotted()),
        scale.shown_as(scale_dto) ==> scale_dto.available == scale.available && scale_dto.name == scale.name && (
        scale_dto.ip is Some <==> scale.ip is Some) && (scale.ip is Some ==> scale_dto.ip->0@ == scale.ip->0.dotted()),
{
}

proof fn lemma_no_line_end_begins(head: Seq<char>, rest: Seq<char>, from: Seq<char>)
    requires
        from.len() > 0,
        !head.contains(from[0]),
    ensures
        forall|i: int| 0 <= i < head.len() ==> !starts_with(#[trigger] (head + rest).skip(i), from),
{
    assert forall|i: int| 0 <= i < head.len() implies !starts_with(#[trigger] (head + rest).skip(i), from) by {
        let t = (head + rest).skip(i);
        if starts_with(t, from) {
            assert(t.take(from.len() as int)[0] == from[0]);
            assert(t[0] == head[i]);
            assert(head.contains(head[i]));
        }
    }
}

/// Lines that end in a line feed and lines that end in a carriage return and a line feed
/// are kept alike: with both. What stands in the lines stays.
pub proof fn lines_are_kept_with_one_end(line: Seq<char>, rest: Seq<char>)
    requires
        !line.contains('\r'),
        !line.contains('\n'),
    ensures
        with_crlf(line + seq!['\n'] + rest) == line + seq!['\r', '\n'] + with_crlf(rest),
        with_crlf(line + seq!['\r', '\n'] + rest) == line + seq!['\r', '\n'] + with_crlf(rest),
        with_crlf(line) == line,
        with_crlf(seq![]) == Seq::<char>::empty(),
{
    let lf = seq!['\n'];
    let crlf = seq!['\r', '\n'];
    let plain = replaced(rest, crlf, lf);
    let fed = line + lf;
    assert(!fed.contains('\r')) by {
        if fed.contains('\r') {
            let i = choose|i: int| 0 <= i < fed.len() && fed[i] == '\r';
            if i < line.len() {
                assert(line[i] == '\r');
            }
        }
    }
    lemma_no_line_end_begins(fed, rest, crlf);
    lemma_head_stays(fed, rest, crlf, lf);
    assert(line + lf + rest =~= fed + rest);
    assert(replaced(line + lf + rest, crlf, lf) == fed + plain);
    assert(line + crlf + rest =~= line + (crlf + rest));
    lemma_no_line_end_begins(line, crlf + rest, crlf);
    assert forall|i: int| 0 <= i < line.len() implies !starts_with(#[trigger] (line + crlf + rest).skip(i), crlf) by {
        assert((line + crlf + rest).skip(i) == (line + (crlf + rest)).skip(i));
    }
    occurrence_is_replaced(line, crlf, lf, rest);
    assert(replaced(line + crlf + rest, crlf, lf) =~= fed + plain);
    assert(fed + plain =~= line + lf + plain);
    assert(line + lf + plain =~= line + (lf + plain));
    lemma_no_line_end_begins(line, lf + plain, lf);
    assert forall|i: int| 0 <= i < line.len() implies !starts_with(#[trigger] (line + lf + plain).skip(i), lf) by {
        assert((line + lf + plain).skip(i) == (line + (lf + plain)).skip(i));
    }
    occurrence_is_replaced(line, lf, crlf, plain);
    let none: Seq<char> = seq![];
    assert(line + none =~= line);
    lemma_no_line_end_begins(line, none, crlf);
    lemma_head_stays(line, none, crlf, lf);
    lemma_no_line_end_begins(line, none, lf);
    lemma_head_stays(line, none, lf, crlf);
}

/// A list is kept unless it is nothing but white space; it is kept without the white space
/// around it.
pub proof fn lists_of_white_space_are_dropped(s: Seq<char>)
    ensures
        kept_list(None) is None,
        kept_list(Some(s)) is None <==> forall|i: int| 0 <= i < s.len() ==> white_space(#[trigger] s[i]),
        kept_list(Some(s)) is Some ==> kept_list(Some(s))->0 == with_crlf(trimmed(s)),
{
    let ends = white_space_around_is_cut_off(s);
    if trimmed(s).len() > 0 {
        assert(!white_space(s[ends.0]));
    }
}

} // verus!
