//! The texts of the user interface in its languages. A schema lists the texts with
//! their English wording and where each is used; a language gives its own wording for
//! some of them, and the English one stands for the rest.

use crate::text::{append, chars_of, cut, has_at, lemma_lists_marked, lists_marked, same_text, text_of, texts};
use crate::text_map::TextMap;
use vstd::prelude::*;

verus! {

/// A text of the schema.
#[derive(Debug)]
pub struct SchemaEntry {
    pub key: String,
    /// The property of the display that shows it.
    pub slint: Option<String>,
    /// The key under which the web pages know it.
    pub web: Option<String>,
    /// Whether the program itself uses it.
    pub rust: bool,
    pub en: String,
}

/// A language: its code, and its wordings by the keys of the schema.
pub struct Language {
    pub code: String,
    pub texts: TextMap<String>,
}

/// The texts in all languages.
pub struct Translations {
    pub schema: Vec<SchemaEntry>,
    pub languages: Vec<Language>,
}

/// A text under the name by which it is used.
#[derive(Debug)]
pub struct NamedText {
    pub name: String,
    pub text: String,
}

/// The name without the endings `.json`.
pub open spec fn without_ending(name: Seq<char>) -> Seq<char>
    decreases name.len(),
{
    if ends_with(name, ".json"@) && ".json"@.len() > 0 {
        without_ending(name.take(name.len() - ".json"@.len()))
    } else {
        name
    }
}

/// Whether `s` ends in `p`.
pub open spec fn ends_with(s: Seq<char>, p: Seq<char>) -> bool {
    p.len() <= s.len() && s.skip(s.len() - p.len()) == p
}

/// The code of the language in a file; English is the schema itself, and other files
/// are none.
pub open spec fn code_of_file(name: Seq<char>) -> Option<Seq<char>> {
    if name == "en.json"@ || !ends_with(name, ".json"@) {
        None
    } else {
        Some(without_ending(name))
    }
}

/// The code of the language in a file.
pub fn language_code(file_name: &str) -> (r: Option<String>)
    ensures
        match code_of_file(file_name@) {
            Some(code) => r is Some && r->0@ == code,
            None => r is None,
        },
{
    let name = chars_of(file_name);
    let ending = chars_of(".json");
    proof {
        reveal_strlit(".json");
    }
    let mut end: usize = name.len();
    proof {
        assert(name@.take(end as int) =~= name@);
    }
    if same_text(file_name, "en.json") || !ends_at(&name, end, &ending) {
        return None;
    }
    while ends_at(&name, end, &ending)
        invariant
            end <= name@.len(),
            ending@ == ".json"@,
            ending@.len() == 5,
            without_ending(name@.take(end as int)) == without_ending(name@),
        decreases end,
    {
        proof {
            let head = name@.take(end as int);
            assert(head.take(head.len() - 5) =~= name@.take(end - 5));
        }
        end -= ending.len();
    }
    let code = cut(name.as_slice(), 0, end);
    proof {
        assert(code@ =~= name@.take(end as int));
    }
    Some(text_of(code.as_slice()))
}

fn ends_at(s: &Vec<char>, end: usize, p: &Vec<char>) -> (r: bool)
    requires
        end <= s@.len(),
    ensures
        r == ends_with(s@.take(end as int), p@),
{
    if p.len() > end {
        return false;
    }
    let head = cut(s.as_slice(), 0, end);
    proof {
        assert(head@ =~= s@.take(end as int));
    }
    let at = end - p.len();
    let found = has_at(head.as_slice(), at, p.as_slice());
    proof {
        assert(head@.skip(at as int).take(p@.len() as int) =~= head@.skip(at as int));
    }
    found
}

impl Language {
    /// The name of the language: what it calls itself, or its code.
    pub open spec fn name(self) -> Seq<char> {
        if self.texts@.contains_key("_name"@) {
            self.texts@["_name"@]@
        } else {
            self.code@
        }
    }

    /// The name of the language.
    pub fn display_name(&self) -> (r: String)
        requires
            self.texts.wf(),
        ensures
            r@ == self.name(),
    {
        match self.texts.get("_name") {
            Some(name) => name.clone(),
            None => self.code.clone(),
        }
    }

    /// The wording of a text: that of the language, or the English one.
    pub open spec fn wording(self, entry: SchemaEntry) -> Seq<char> {
        if self.texts@.contains_key(entry.key@) {
            self.texts@[entry.key@]@
        } else {
            entry.en@
        }
    }

    fn word(&self, entry: &SchemaEntry) -> (r: String)
        requires
            self.texts.wf(),
        ensures
            r@ == self.wording(*entry),
    {
        match self.texts.get(entry.key.as_str()) {
            Some(text) => text.clone(),
            None => entry.en.clone(),
        }
    }
}

impl Translations {
    /// The wordings are well formed.
    pub open spec fn wf(self) -> bool {
        forall|i: int| 0 <= i < self.languages@.len() ==> (#[trigger] self.languages@[i]).texts.wf()
    }

    /// The first language with a code, or the number of languages.
    pub open spec fn find(languages: Seq<Language>, code: Seq<char>) -> int
        decreases languages.len(),
    {
        if languages.len() == 0 {
            0
        } else if languages[0].code@ == code {
            0
        } else {
            1 + Self::find(languages.skip(1), code)
        }
    }

    /// The wording of a text in a language; English where there is no such language.
    pub open spec fn wording(self, lang: Seq<char>, entry: SchemaEntry) -> Seq<char> {
        let i = Self::find(self.languages@, lang);
        if i < self.languages@.len() {
            self.languages@[i].wording(entry)
        } else {
            entry.en@
        }
    }

    /// The wording of a text in a language, or in English where none is given.
    pub open spec fn wording_in(self, lang: Option<Seq<char>>, entry: SchemaEntry) -> Seq<char> {
        match lang {
            Some(code) => self.wording(code, entry),
            None => entry.en@,
        }
    }

    fn find_language(&self, lang: &str) -> (r: usize)
        ensures
            r == Self::find(self.languages@, lang@),
            r <= self.languages@.len(),
    {
        let mut i: usize = 0;
        proof {
            assert(self.languages@.skip(0) =~= self.languages@);
        }
        while i < self.languages.len() && !same_text(self.languages[i].code.as_str(), lang)
            invariant
                i <= self.languages@.len(),
                Self::find(self.languages@, lang@) == i + Self::find(self.languages@.skip(i as int), lang@),
            decreases self.languages@.len() - i,
        {
            proof {
                assert(self.languages@.skip(i as int).skip(1) =~= self.languages@.skip(i + 1));
            }
            i += 1;
        }
        i
    }

    spec fn indexes(self, index: usize, lang: Option<&str>) -> bool {
        match lang {
            Some(code) => index == Self::find(self.languages@, code@),
            None => index >= self.languages@.len(),
        }
    }

    fn language_index(&self, lang: Option<&str>) -> (r: usize)
        ensures
            self.indexes(r, lang),
    {
        match lang {
            Some(code) => self.find_language(code),
            None => self.languages.len(),
        }
    }

    fn word(&self, index: usize, entry: &SchemaEntry) -> (r: String)
        requires
            self.wf(),
        ensures
            r@ == (if index < self.languages@.len() {
                self.languages@[index as int].wording(*entry)
            } else {
                entry.en@
            }),
    {
        if index < self.languages.len() {
            self.languages[index].word(entry)
        } else {
            entry.en.clone()
        }
    }

    /// The text that the program uses under a key, in the order of the schema: its
    /// wording in the language, or the key itself where it is none of those.
    pub open spec fn looked_up(self, schema: Seq<SchemaEntry>, lang: Seq<char>, key: Seq<char>) -> Seq<char>
        decreases schema.len(),
    {
        if schema.len() == 0 {
            key
        } else if schema[0].rust && schema[0].key@ == key {
            self.wording(lang, schema[0])
        } else {
            self.looked_up(schema.skip(1), lang, key)
        }
    }

    /// The text that the program uses under a key.
    pub fn tr_rust(&self, lang: &str, key: &str) -> (r: String)
        requires
            self.wf(),
        ensures
            r@ == self.looked_up(self.schema@, lang@, key@),
    {
        let index = self.find_language(lang);
        let mut i: usize = 0;
        proof {
            assert(self.schema@.skip(0) =~= self.schema@);
        }
        while i < self.schema.len()
            invariant
                i <= self.schema@.len(),
                self.wf(),
                index == Self::find(self.languages@, lang@),
                self.looked_up(self.schema@.skip(i as int), lang@, key@) == self.looked_up(self.schema@, lang@, key@),
            decreases self.schema@.len() - i,
        {
            proof {
                assert(self.schema@.skip(i as int).skip(1) =~= self.schema@.skip(i + 1));
                assert(self.schema@.skip(i as int)[0] == self.schema@[i as int]);
            }
            if self.schema[i].rust && same_text(self.schema[i].key.as_str(), key) {
                return self.word(index, &self.schema[i]);
            }
            i += 1;
        }
        key.to_string()
    }

    /// The texts of the display in a language, or in English where none is given, by
    /// property, in the order of the schema.
    pub open spec fn shown(self, lang: Option<Seq<char>>, n: int) -> Seq<(Seq<char>, Seq<char>)>
        decreases n,
    {
        if n <= 0 {
            seq![]
        } else {
            let entry = self.schema@[n - 1];
            match entry.slint {
                Some(prop) => self.shown(lang, n - 1).push((prop@, self.wording_in(lang, entry))),
                None => self.shown(lang, n - 1),
            }
        }
    }

    /// The texts of the display in a language, or in English where none is given, by
    /// property.
    pub fn slint_translations(&self, language: Option<&str>) -> (r: Vec<NamedText>)
        requires
            self.wf(),
        ensures
            pairs(r@) == self.shown(code_view(language), self.schema@.len() as int),
    {
        let index = self.language_index(language);
        let mut r: Vec<NamedText> = Vec::new();
        let mut i: usize = 0;
        proof {
            assert(pairs(r@) =~= self.shown(code_view(language), 0));
        }
        while i < self.schema.len()
            invariant
                i <= self.schema@.len(),
                self.wf(),
                self.indexes(index, language),
                pairs(r@) == self.shown(code_view(language), i as int),
            decreases self.schema@.len() - i,
        {
            let entry = &self.schema[i];
            if let Some(prop) = &entry.slint {
                let text = self.word(index, entry);
                let ghost before = r@;
                r.push(NamedText { name: prop.clone(), text });
                proof {
                    assert(pairs(r@) =~= pairs(before).push((prop@, text@)));
                }
            }
            i += 1;
        }
        r
    }

    /// The texts of the web pages in a language, by their keys there: of two texts with
    /// one key the later stays. English pages bring their own.
    pub open spec fn web_texts(self, lang: Seq<char>, n: int) -> Map<Seq<char>, Seq<char>>
        decreases n,
    {
        if n <= 0 || Self::find(self.languages@, lang) >= self.languages@.len() {
            Map::empty()
        } else {
            let entry = self.schema@[n - 1];
            match entry.web {
                Some(key) => self.web_texts(lang, n - 1).insert(key@, self.wording(lang, entry)),
                None => self.web_texts(lang, n - 1),
            }
        }
    }

    /// The texts of the web pages in a language.
    pub fn web_translations(&self, lang: &str) -> (r: TextMap<String>)
        requires
            self.wf(),
        ensures
            r.wf(),
            r@.dom() == self.web_texts(lang@, self.schema@.len() as int).dom(),
            forall|k: Seq<char>| #[trigger]
                r@.contains_key(k) ==> r@[k]@ == self.web_texts(lang@, self.schema@.len() as int)[k],
    {
        let mut r: TextMap<String> = TextMap::new();
        let index = self.find_language(lang);
        proof {
            assert(r@.dom() =~= self.web_texts(lang@, 0).dom());
        }
        if index == self.languages.len() {
            proof {
                assert(r@.dom() =~= self.web_texts(lang@, self.schema@.len() as int).dom());
            }
            return r;
        }
        let mut i: usize = 0;
        while i < self.schema.len()
            invariant
                i <= self.schema@.len(),
                self.wf(),
                r.wf(),
                index == Self::find(self.languages@, lang@),
                index < self.languages@.len(),
                r@.dom() == self.web_texts(lang@, i as int).dom(),
                forall|k: Seq<char>| #[trigger] r@.contains_key(k) ==> r@[k]@ == self.web_texts(lang@, i as int)[k],
            decreases self.schema@.len() - i,
        {
            let entry = &self.schema[i];
            if let Some(key) = &entry.web {
                let text = self.word(index, entry);
                let ghost before = r@;
                r.insert(key.clone(), text);
                proof {
                    assert(r@.dom() =~= self.web_texts(lang@, i + 1).dom());
                    assert forall|k: Seq<char>| #[trigger] r@.contains_key(k) implies r@[k]@ == self.web_texts(
                        lang@,
                        i + 1,
                    )[k] by {
                        if k != key@ {
                            assert(before.contains_key(k));
                        }
                    }
                }
            }
            i += 1;
        }
        r
    }

    /// The languages, English first: code and name.
    pub fn available_languages(&self) -> (r: Vec<NamedText>)
        requires
            self.wf(),
        ensures
            r@.len() == self.languages@.len() + 1,
            r@[0].name@ == "en"@,
            r@[0].text@ == "English"@,
            forall|i: int|
                0 <= i < self.languages@.len() ==> (#[trigger] self.languages@[i]).code@ == r@[i + 1].name@
                    && self.languages@[i].name() == r@[i + 1].text@,
    {
        let mut r: Vec<NamedText> = Vec::new();
        r.push(NamedText { name: "en".to_string(), text: "English".to_string() });
        let mut i: usize = 0;
        while i < self.languages.len()
            invariant
                i <= self.languages@.len(),
                self.wf(),
                r@.len() == i + 1,
                r@[0].name@ == "en"@,
                r@[0].text@ == "English"@,
                forall|j: int|
                    0 <= j < i ==> (#[trigger] self.languages@[j]).code@ == r@[j + 1].name@
                        && self.languages@[j].name() == r@[j + 1].text@,
            decreases self.languages@.len() - i,
        {
            let language = &self.languages[i];
            r.push(NamedText { name: language.code.clone(), text: language.display_name() });
            i += 1;
        }
        r
    }
}

/// The code of a language by its characters.
pub open spec fn code_view(code: Option<&str>) -> Option<Seq<char>> {
    match code {
        Some(code) => Some(code@),
        None => None,
    }
}

/// Names and texts by their characters.
pub open spec fn pairs(v: Seq<NamedText>) -> Seq<(Seq<char>, Seq<char>)> {
    v.map_values(|t: NamedText| (t.name@, t.text@))
}

/// A character in a string literal.
pub open spec fn escaped_char(c: char) -> Seq<char> {
    if c == '\\' {
        seq!['\\', '\\']
    } else if c == '"' {
        seq!['\\', '"']
    } else if c == '\n' {
        seq!['\\', 'n']
    } else if c == '\r' {
        seq!['\\', 'r']
    } else {
        seq![c]
    }
}

/// A text in a string literal.
pub open spec fn escaped(s: Seq<char>) -> Seq<char>
    decreases s.len(),
{
    if s.len() == 0 {
        seq![]
    } else {
        escaped(s.drop_last()) + escaped_char(s.last())
    }
}

/// The text of a string literal.
pub open spec fn unescaped(s: Seq<char>) -> Seq<char>
    decreases s.len(),
{
    if s.len() == 0 {
        seq![]
    } else if s[0] == '\\' && s.len() > 1 {
        let c = if s[1] == 'n' {
            '\n'
        } else if s[1] == 'r' {
            '\r'
        } else {
            s[1]
        };
        seq![c] + unescaped(s.skip(2))
    } else {
        seq![s[0]] + unescaped(s.skip(1))
    }
}

/// Writes a text for a string literal.
pub fn escape(value: &str) -> (r: String)
    ensures
        r@ == escaped(value@),
{
    let chars = chars_of(value);
    let mut out: Vec<char> = Vec::new();
    let mut i: usize = 0;
    proof {
        assert(chars@.take(0).len() == 0);
        assert(out@ =~= escaped(chars@.take(0)));
    }
    while i < chars.len()
        invariant
            i <= chars@.len(),
            out@ == escaped(chars@.take(i as int)),
        decreases chars@.len() - i,
    {
        let c = chars[i];
        let ghost before = out@;
        if c == '\\' || c == '"' || c == '\n' || c == '\r' {
            out.push('\\');
        }
        out.push(if c == '\n' { 'n' } else if c == '\r' { 'r' } else { c });
        i += 1;
        proof {
            assert(chars@.take(i as int).drop_last() =~= chars@.take(i - 1));
            assert(out@ =~= before + escaped_char(c));
        }
    }
    proof {
        assert(chars@.take(chars@.len() as int) =~= chars@);
    }
    text_of(out.as_slice())
}

/// The statement that sets a property of the display.
pub open spec fn property_line(prop: Seq<char>, text: Seq<char>) -> Seq<char> {
    "            tr.set_tr_"@ + prop + "(\""@ + escaped(text) + "\".into());\n"@
}

/// The statements that set properties of the display.
pub open spec fn property_lines(texts: Seq<(Seq<char>, Seq<char>)>) -> Seq<char>
    decreases texts.len(),
{
    if texts.len() == 0 {
        seq![]
    } else {
        property_lines(texts.drop_last()) + property_line(texts.last().0, texts.last().1)
    }
}

/// An arm of a `match` on the language that is a text.
pub open spec fn web_arm(code: Seq<char>, json: Seq<char>) -> Seq<char> {
    "        \""@ + code + "\" => r##\""@ + json + "\"##,\n"@
}

/// An element of the list of languages.
pub open spec fn language_line(code: Seq<char>, name: Seq<char>) -> Seq<char> {
    "        (\""@ + code + "\", \""@ + name + "\"),\n"@
}

/// An arm of a `match` on language and key; without a language it is for any other.
pub open spec fn text_arm(code: Option<Seq<char>>, key: Seq<char>, text: Seq<char>) -> Seq<char> {
    (match code {
        Some(code) => "        (\""@ + code + "\", \""@,
        None => "        (_, \""@,
    }) + key + "\") => \""@ + escaped(text) + "\",\n"@
}

impl Translations {
    /// The arms of the first `n` languages that set the display.
    pub open spec fn display_arms(self, n: int) -> Seq<char>
        decreases n,
    {
        if n <= 0 {
            seq![]
        } else {
            let code = self.languages@[n - 1].code@;
            self.display_arms(n - 1) + "        \""@ + code + "\" => {\n"@ + property_lines(
                self.shown(Some(code), self.schema@.len() as int),
            ) + "        }\n"@
        }
    }

    /// The arms of the first `n` languages that give the texts of the web pages.
    pub open spec fn web_arms(self, tables: Seq<Seq<char>>, n: int) -> Seq<char>
        decreases n,
    {
        if n <= 0 {
            seq![]
        } else {
            self.web_arms(tables, n - 1) + web_arm(self.languages@[n - 1].code@, tables[n - 1])
        }
    }

    /// The first `n` languages in the list of languages.
    pub open spec fn language_lines(self, n: int) -> Seq<char>
        decreases n,
    {
        if n <= 0 {
            seq![]
        } else {
            self.language_lines(n - 1) + language_line(self.languages@[n - 1].code@, self.languages@[n - 1].name())
        }
    }

    /// The arms of a language for those of the first `n` texts that the program uses.
    pub open spec fn text_arms(self, lang: Option<Seq<char>>, n: int) -> Seq<char>
        decreases n,
    {
        if n <= 0 {
            seq![]
        } else if self.schema@[n - 1].rust {
            self.text_arms(lang, n - 1) + text_arm(
                lang,
                self.schema@[n - 1].key@,
                self.wording_in(lang, self.schema@[n - 1]),
            )
        } else {
            self.text_arms(lang, n - 1)
        }
    }

    /// The arms of the first `n` languages for the texts that the program uses.
    pub open spec fn all_text_arms(self, n: int) -> Seq<char>
        decreases n,
    {
        if n <= 0 {
            seq![]
        } else {
            self.all_text_arms(n - 1) + self.text_arms(Some(self.languages@[n - 1].code@), self.schema@.len() as int)
        }
    }

    /// The function that sets the display in a language.
    pub open spec fn display_source(self) -> Seq<char> {
        "use slint::ComponentHandle;\n\npub fn apply_slint_translations(\n    ui_weak: &slint::Weak<crate::app::AppWindow>,\n    language: &str,\n) {\n    let ui = ui_weak.unwrap();\n    let tr = ui.global::<crate::app::Translations>();\n    match language {\n"@
            + self.display_arms(self.languages@.len() as int) + "        \"en\" | _ => {\n"@ + property_lines(
            self.shown(None, self.schema@.len() as int),
        ) + "        }\n    }\n}\n\n"@
    }

    /// The function that gives the texts of the web pages, of which `tables` are those of
    /// the languages.
    pub open spec fn web_source(self, tables: Seq<Seq<char>>) -> Seq<char> {
        "pub fn get_web_translations_json(lang: &str) -> &'static str {\n    match lang {\n"@ + self.web_arms(
            tables,
            self.languages@.len() as int,
        ) + "        _ => \"{}\",\n    }\n}\n\n"@
    }

    /// The function that lists the languages.
    pub open spec fn languages_source(self) -> Seq<char> {
        "pub fn get_available_languages() -> &'static [(&'static str, &'static str)] {\n    &[\n"@
            + language_line("en"@, "English"@) + self.language_lines(self.languages@.len() as int) + "    ]\n}\n"@
    }

    /// The function that gives the texts that the program uses.
    pub open spec fn program_source(self) -> Seq<char> {
        "pub fn tr_rust<'a>(lang: &str, key: &'a str) -> &'a str {\n    match (lang, key) {\n"@ + self.all_text_arms(
            self.languages@.len() as int,
        ) + self.text_arms(None, self.schema@.len() as int) + "        (_, _) => key,\n    }\n}\n"@
    }

    /// The translations as source, with the texts of the web pages as `tables`.
    pub open spec fn source_text(self, tables: Seq<Seq<char>>) -> Seq<char> {
        self.display_source() + self.web_source(tables) + self.languages_source() + self.program_source()
    }

    /// The texts of the web pages in each language, as JSON.
    pub open spec fn web_tables(self) -> Seq<Seq<char>> {
        Seq::new(
            self.languages@.len(),
            |i: int| json_object(self.web_texts(self.languages@[i].code@, self.schema@.len() as int)),
        )
    }
}

fn put(out: &mut Vec<char>, text: &str)
    ensures
        final(out)@ == old(out)@ + text@,
{
    let chars = chars_of(text);
    append(out, chars.as_slice());
}

fn put_properties(out: &mut Vec<char>, texts: &Vec<NamedText>)
    ensures
        final(out)@ == old(out)@ + property_lines(pairs(texts@)),
{
    let ghost start = out@;
    let ghost all = pairs(texts@);
    let mut i: usize = 0;
    proof {
        assert(all.take(0).len() == 0);
        assert(out@ =~= start + property_lines(all.take(0)));
    }
    while i < texts.len()
        invariant
            i <= texts@.len(),
            all == pairs(texts@),
            out@ == start + property_lines(all.take(i as int)),
        decreases texts@.len() - i,
    {
        let escaped_text = escape(texts[i].text.as_str());
        put(out, "            tr.set_tr_");
        put(out, texts[i].name.as_str());
        put(out, "(\"");
        put(out, escaped_text.as_str());
        put(out, "\".into());\n");
        i += 1;
        proof {
            assert(all.take(i as int).drop_last() =~= all.take(i - 1));
            assert(all.take(i as int).last() == all[i - 1]);
            assert(out@ =~= start + property_lines(all.take(i as int)));
        }
    }
    proof {
        assert(all.take(all.len() as int) =~= all);
    }
}

fn put_language(out: &mut Vec<char>, language: &NamedText)
    ensures
        final(out)@ == old(out)@ + language_line(language.name@, language.text@),
{
    let ghost start = out@;
    put(out, "        (\"");
    put(out, language.name.as_str());
    put(out, "\", \"");
    put(out, language.text.as_str());
    put(out, "\"),\n");
    proof {
        assert(out@ =~= start + language_line(language.name@, language.text@));
    }
}

/// The object that `serde_json` writes for texts by their names.
pub uninterp spec fn json_object(texts: Map<Seq<char>, Seq<char>>) -> Seq<char>;

/// Texts by their names.
pub open spec fn by_name(entries: Seq<(String, String)>) -> Map<Seq<char>, Seq<char>>
    decreases entries.len(),
{
    if entries.len() == 0 {
        Map::empty()
    } else {
        by_name(entries.drop_last()).insert(entries.last().0@, entries.last().1@)
    }
}

/// `serde_json::to_string` writes a map of texts, which it always can. What it writes
/// depends on the texts and their names alone; the names are different.
#[verifier::external_body]
fn write_json_object(entries: Vec<(String, String)>) -> (r: String)
    requires
        forall|i: int, j: int|
            0 <= i < j < entries@.len() ==> (#[trigger] entries@[i]).0@ != (#[trigger] entries@[j]).0@,
    ensures
        r@ == json_object(by_name(entries@)),
{
    let table: std::collections::BTreeMap<String, String> = entries.into_iter().collect();
    serde_json::to_string(&table).unwrap()
}

fn write_table(texts: &TextMap<String>) -> (r: String)
    requires
        texts.wf(),
    ensures
        r@ == json_object(texts@.map_values(|text: String| text@)),
{
    let ghost order = texts.order();
    let mut entries: Vec<(String, String)> = Vec::new();
    let mut i: usize = 0;
    proof {
        texts.order_is_complete();
    }
    while i < texts.len()
        invariant
            texts.wf(),
            order == texts.order(),
            order.no_duplicates(),
            i <= order.len(),
            entries@.len() == i,
            forall|j: int| 0 <= j < i ==> (#[trigger] entries@[j]).0@ == order[j],
            forall|j: int| 0 <= j < i ==> texts@.contains_key(#[trigger] order[j]),
            forall|j: int| 0 <= j < i ==> (#[trigger] entries@[j]).1@ == texts@[order[j]]@,
        decreases order.len() - i,
    {
        let key = texts.key_at(i).clone();
        let text = texts.value_at(i).clone();
        entries.push((key, text));
        i += 1;
    }
    proof {
        let m = texts@.map_values(|text: String| text@);
        lemma_by_name(entries@, order, m);
        assert forall|k: Seq<char>| order.contains(k) == m.contains_key(k) by {
            assert(order.to_set().contains(k) == texts@.dom().contains(k));
        }
        assert(by_name(entries@) =~= m);
    }
    write_json_object(entries)
}

proof fn lemma_by_name(entries: Seq<(String, String)>, names: Seq<Seq<char>>, m: Map<Seq<char>, Seq<char>>)
    requires
        entries.len() == names.len(),
        forall|j: int| 0 <= j < entries.len() ==> (#[trigger] entries[j]).0@ == names[j],
        forall|j: int| 0 <= j < entries.len() ==> (#[trigger] entries[j]).1@ == m[names[j]],
    ensures
        forall|k: Seq<char>| by_name(entries).contains_key(k) == names.contains(k),
        forall|k: Seq<char>| names.contains(k) ==> #[trigger] by_name(entries)[k] == m[k],
    decreases entries.len(),
{
    if entries.len() > 0 {
        let n = names.drop_last();
        lemma_by_name(entries.drop_last(), n, m);
        assert forall|k: Seq<char>| names.contains(k) == (n.contains(k) || k == names.last()) by {
            if names.contains(k) {
                let i = choose|i: int| 0 <= i < names.len() && names[i] == k;
                if i < n.len() {
                    assert(n[i] == k);
                }
            }
            if n.contains(k) {
                let i = choose|i: int| 0 <= i < n.len() && n[i] == k;
                assert(names[i] == k);
            }
            if k == names.last() {
                assert(names[names.len() - 1] == k);
            }
        }
    }
}

impl Translations {
    fn put_text_arms(&self, out: &mut Vec<char>, lang: Option<&str>)
        requires
            self.wf(),
        ensures
            final(out)@ == old(out)@ + self.text_arms(code_view(lang), self.schema@.len() as int),
    {
        let ghost start = out@;
        let index = self.language_index(lang);
        let mut i: usize = 0;
        proof {
            assert(out@ =~= start + self.text_arms(code_view(lang), 0));
        }
        while i < self.schema.len()
            invariant
                i <= self.schema@.len(),
                self.wf(),
                self.indexes(index, lang),
                out@ == start + self.text_arms(code_view(lang), i as int),
            decreases self.schema@.len() - i,
        {
            let entry = &self.schema[i];
            if entry.rust {
                let text = self.word(index, entry);
                let escaped_text = escape(text.as_str());
                match lang {
                    Some(code) => {
                        put(out, "        (\"");
                        put(out, code);
                        put(out, "\", \"");
                    },
                    None => put(out, "        (_, \""),
                }
                put(out, entry.key.as_str());
                put(out, "\") => \"");
                put(out, escaped_text.as_str());
                put(out, "\",\n");
                proof {
                    assert(out@ =~= start + self.text_arms(code_view(lang), i + 1));
                }
            }
            i += 1;
        }
    }

    fn put_display_source(&self, out: &mut Vec<char>)
        requires
            self.wf(),
        ensures
            final(out)@ == old(out)@ + self.display_source(),
    {
        let ghost start = out@;
        put(out, "use slint::ComponentHandle;\n\npub fn apply_slint_translations(\n    ui_weak: &slint::Weak<crate::app::AppWindow>,\n    language: &str,\n) {\n    let ui = ui_weak.unwrap();\n    let tr = ui.global::<crate::app::Translations>();\n    match language {\n");
        let ghost head = out@;
        let mut i: usize = 0;
        proof {
            assert(out@ =~= head + self.display_arms(0));
        }
        while i < self.languages.len()
            invariant
                i <= self.languages@.len(),
                self.wf(),
                out@ == head + self.display_arms(i as int),
            decreases self.languages@.len() - i,
        {
            let code = self.languages[i].code.as_str();
            let texts = self.slint_translations(Some(code));
            put(out, "        \"");
            put(out, code);
            put(out, "\" => {\n");
            put_properties(out, &texts);
            put(out, "        }\n");
            i += 1;
            proof {
                assert(out@ =~= head + self.display_arms(i as int));
            }
        }
        let texts = self.slint_translations(None);
        put(out, "        \"en\" | _ => {\n");
        put_properties(out, &texts);
        put(out, "        }\n    }\n}\n\n");
        proof {
            assert(out@ =~= start + self.display_source());
        }
    }

    fn put_web_source(&self, out: &mut Vec<char>, tables: &Vec<String>)
        requires
            tables@.len() == self.languages@.len(),
        ensures
            final(out)@ == old(out)@ + self.web_source(texts(tables@)),
    {
        let ghost start = out@;
        put(out, "pub fn get_web_translations_json(lang: &str) -> &'static str {\n    match lang {\n");
        let ghost head = out@;
        let mut i: usize = 0;
        proof {
            assert(out@ =~= head + self.web_arms(texts(tables@), 0));
        }
        while i < self.languages.len()
            invariant
                i <= self.languages@.len(),
                tables@.len() == self.languages@.len(),
                out@ == head + self.web_arms(texts(tables@), i as int),
            decreases self.languages@.len() - i,
        {
            put(out, "        \"");
            put(out, self.languages[i].code.as_str());
            put(out, "\" => r##\"");
            put(out, tables[i].as_str());
            put(out, "\"##,\n");
            i += 1;
            proof {
                assert(texts(tables@)[i - 1] == tables@[i - 1]@);
                assert(out@ =~= head + self.web_arms(texts(tables@), i as int));
            }
        }
        put(out, "        _ => \"{}\",\n    }\n}\n\n");
        proof {
            assert(out@ =~= start + self.web_source(texts(tables@)));
        }
    }

    fn put_languages_source(&self, out: &mut Vec<char>)
        requires
            self.wf(),
        ensures
            final(out)@ == old(out)@ + self.languages_source(),
    {
        let ghost start = out@;
        put(out, "pub fn get_available_languages() -> &'static [(&'static str, &'static str)] {\n    &[\n");
        let languages = self.available_languages();
        put_language(out, &languages[0]);
        let ghost head = out@;
        let mut i: usize = 1;
        proof {
            assert(out@ =~= head + self.language_lines(0));
        }
        while i < languages.len()
            invariant
                1 <= i <= languages@.len(),
                languages@.len() == self.languages@.len() + 1,
                forall|j: int|
                    0 <= j < self.languages@.len() ==> (#[trigger] self.languages@[j]).code@ == languages@[j + 1].name@
                        && self.languages@[j].name() == languages@[j + 1].text@,
                out@ == head + self.language_lines(i - 1),
            decreases languages@.len() - i,
        {
            put_language(out, &languages[i]);
            i += 1;
            proof {
                assert(self.languages@[i - 2].code@ == languages@[i - 1].name@);
                assert(out@ =~= head + self.language_lines(i - 1));
            }
        }
        put(out, "    ]\n}\n");
        proof {
            assert(out@ =~= start + self.languages_source());
        }
    }

    fn put_program_source(&self, out: &mut Vec<char>)
        requires
            self.wf(),
        ensures
            final(out)@ == old(out)@ + self.program_source(),
    {
        let ghost start = out@;
        put(out, "pub fn tr_rust<'a>(lang: &str, key: &'a str) -> &'a str {\n    match (lang, key) {\n");
        let ghost head = out@;
        let mut i: usize = 0;
        proof {
            assert(out@ =~= head + self.all_text_arms(0));
        }
        while i < self.languages.len()
            invariant
                i <= self.languages@.len(),
                self.wf(),
                out@ == head + self.all_text_arms(i as int),
            decreases self.languages@.len() - i,
        {
            self.put_text_arms(out, Some(self.languages[i].code.as_str()));
            i += 1;
            proof {
                assert(out@ =~= head + self.all_text_arms(i as int));
            }
        }
        self.put_text_arms(out, None);
        put(out, "        (_, _) => key,\n    }\n}\n");
        proof {
            assert(out@ =~= start + self.program_source());
        }
    }

    /// Writes the translations as source, with the texts of the web pages as given.
    pub fn source_with(&self, tables: &Vec<String>) -> (r: String)
        requires
            self.wf(),
            tables@.len() == self.languages@.len(),
        ensures
            r@ == self.source_text(texts(tables@)),
    {
        let mut out: Vec<char> = Vec::new();
        self.put_display_source(&mut out);
        self.put_web_source(&mut out, tables);
        self.put_languages_source(&mut out);
        self.put_program_source(&mut out);
        proof {
            assert(out@ =~= self.source_text(texts(tables@)));
        }
        text_of(out.as_slice())
    }

    /// Writes the translations as source.
    pub fn generated_source(&self) -> (r: String)
        requires
            self.wf(),
        ensures
            r@ == self.source_text(self.web_tables()),
    {
        let mut tables: Vec<String> = Vec::new();
        let mut i: usize = 0;
        while i < self.languages.len()
            invariant
                i <= self.languages@.len(),
                self.wf(),
                tables@.len() == i,
                forall|j: int| 0 <= j < i ==> (#[trigger] tables@[j])@ == self.web_tables()[j],
            decreases self.languages@.len() - i,
        {
            let web = self.web_translations(self.languages[i].code.as_str());
            let table = write_table(&web);
            proof {
                let all = self.web_texts(self.languages@[i as int].code@, self.schema@.len() as int);
                assert(web@.map_values(|text: String| text@) =~= all);
            }
            tables.push(table);
            i += 1;
        }
        proof {
            assert(texts(tables@) =~= self.web_tables());
        }
        self.source_with(&tables)
    }
}

proof fn lemma_escaped_front(s: Seq<char>)
    requires
        s.len() > 0,
    ensures
        escaped(s) == escaped_char(s[0]) + escaped(s.skip(1)),
    decreases s.len(),
{
    if s.len() == 1 {
        assert(s.drop_last() =~= seq![]);
        assert(s.skip(1) =~= seq![]);
        assert(escaped(s.drop_last()) =~= seq![]);
        assert(escaped_char(s[0]) + escaped(s.skip(1)) =~= escaped_char(s[0]));
        assert(escaped(s) =~= escaped_char(s[0]));
    } else {
        lemma_escaped_front(s.drop_last());
        assert(s.drop_last().skip(1) =~= s.skip(1).drop_last());
        assert(s.skip(1).last() == s.last());
        assert(escaped_char(s[0]) + escaped(s.skip(1).drop_last()) + escaped_char(s.last()) =~= escaped_char(s[0]) + (
        escaped(s.skip(1).drop_last()) + escaped_char(s.last())));
    }
}

/// What is written into a string literal is read from it.
pub proof fn literal_reads_back(s: Seq<char>)
    ensures
        unescaped(escaped(s)) == s,
    decreases s.len(),
{
    if s.len() > 0 {
        lemma_escaped_front(s);
        literal_reads_back(s.skip(1));
        let rest = escaped(s.skip(1));
        let e = escaped_char(s[0]);
        let whole = e + rest;
        if e.len() == 2 {
            assert(whole.skip(2) =~= rest);
            assert(whole[1] == e[1]);
        } else {
            assert(whole.skip(1) =~= rest);
        }
        assert(seq![s[0]] + s.skip(1) =~= s);
    }
}

/// A text is worded as the language has it, and in English where it has it not or there is
/// no such language. The first language with a code counts.
pub proof fn english_stands_for_what_is_missing(t: Translations, code: Seq<char>, i: int, entry: SchemaEntry)
    requires
        0 <= i <= t.languages@.len(),
        forall|j: int| 0 <= j < i ==> (#[trigger] t.languages@[j]).code@ != code,
        i < t.languages@.len() ==> t.languages@[i].code@ == code,
    ensures
        Translations::find(t.languages@, code) == i,
        i < t.languages@.len() && t.languages@[i].texts@.contains_key(entry.key@) ==> t.wording(code, entry)
            == t.languages@[i].texts@[entry.key@]@,
        i == t.languages@.len() || !t.languages@[i].texts@.contains_key(entry.key@) ==> t.wording(code, entry)
            == entry.en@,
        t.wording_in(None, entry) == entry.en@,
        t.wording_in(Some(code), entry) == t.wording(code, entry),
{
    lemma_find_is(t.languages@, code, i);
}

proof fn lemma_find_is(languages: Seq<Language>, code: Seq<char>, i: int)
    requires
        0 <= i <= languages.len(),
        forall|j: int| 0 <= j < i ==> (#[trigger] languages[j]).code@ != code,
        i < languages.len() ==> languages[i].code@ == code,
    ensures
        Translations::find(languages, code) == i,
    decreases languages.len(),
{
    if languages.len() > 0 && i > 0 {
        assert(languages[0].code@ != code);
        assert forall|j: int| 0 <= j < i - 1 implies (#[trigger] languages.skip(1)[j]).code@ != code by {
            assert(languages.skip(1)[j] == languages[j + 1]);
        }
        lemma_find_is(languages.skip(1), code, i - 1);
    }
}

/// A language is called by what it calls itself, or by its code.
pub proof fn languages_have_names(language: Language)
    ensures
        language.texts@.contains_key(seq!['_', 'n', 'a', 'm', 'e']) ==> language.name() == language.texts@[seq![
            '_',
            'n',
            'a',
            'm',
            'e',
        ]]@,
        !language.texts@.contains_key(seq!['_', 'n', 'a', 'm', 'e']) ==> language.name() == language.code@,
{
    reveal_strlit("_name");
    assert("_name"@ =~= seq!['_', 'n', 'a', 'm', 'e']);
}

/// The first text of the schema with a key that the program uses gives its wording; a key
/// that is none of those stands for itself.
pub proof fn program_texts_are_found_by_their_keys(
    t: Translations,
    schema: Seq<SchemaEntry>,
    lang: Seq<char>,
    key: Seq<char>,
    i: int,
)
    requires
        0 <= i <= schema.len(),
        forall|j: int| 0 <= j < i ==> !((#[trigger] schema[j]).rust && schema[j].key@ == key),
        i < schema.len() ==> schema[i].rust && schema[i].key@ == key,
    ensures
        t.looked_up(schema, lang, key) == (if i < schema.len() {
            t.wording(lang, schema[i])
        } else {
            key
        }),
    decreases schema.len(),
{
    if schema.len() > 0 && i > 0 {
        assert(!(schema[0].rust && schema[0].key@ == key));
        assert forall|j: int| 0 <= j < i - 1 implies !((#[trigger] schema.skip(1)[j]).rust && schema.skip(1)[j].key@
            == key) by {
            assert(schema.skip(1)[j] == schema[j + 1]);
        }
        program_texts_are_found_by_their_keys(t, schema.skip(1), lang, key, i - 1);
    }
}

/// The display shows exactly those texts, in the order of the schema, that have a property.
pub proof fn texts_with_a_property_are_shown(t: Translations, lang: Option<Seq<char>>, n: int) -> (at: Seq<int>)
    requires
        0 <= n <= t.schema@.len(),
    ensures
        lists_marked(at, Seq::new(n as nat, |i: int| t.schema@[i].slint is Some)),
        t.shown(lang, n).len() == at.len(),
        forall|k: int|
            0 <= k < at.len() ==> (#[trigger] t.shown(lang, n)[k]).0 == t.schema@[at[k]].slint->0@ && t.shown(lang, n)[k].1
                == t.wording_in(lang, t.schema@[at[k]]),
    decreases n,
{
    let marks = Seq::new(n as nat, |i: int| t.schema@[i].slint is Some);
    if n == 0 {
        assert(lists_marked(seq![], marks));
        seq![]
    } else {
        let before = texts_with_a_property_are_shown(t, lang, n - 1);
        let fewer = Seq::new((n - 1) as nat, |i: int| t.schema@[i].slint is Some);
        lemma_lists_marked(before, fewer, t.schema@[n - 1].slint is Some);
        assert(fewer.push(t.schema@[n - 1].slint is Some) =~= marks);
        if t.schema@[n - 1].slint is Some {
            before.push(n - 1)
        } else {
            before
        }
    }
}

/// The web pages of a language have, under each of their keys, the wording of the last text
/// of the schema with this key; there is none under any other.
pub proof fn last_text_with_the_web_key_counts(t: Translations, lang: Seq<char>, key: Seq<char>, n: int, i: int)
    requires
        -1 <= i < n <= t.schema@.len() || (n == 0 && i == -1),
        Translations::find(t.languages@, lang) < t.languages@.len(),
        i >= 0 ==> t.schema@[i].web is Some && t.schema@[i].web->0@ == key,
        forall|j: int|
            i < j < n ==> !((#[trigger] t.schema@[j]).web is Some && t.schema@[j].web->0@ == key),
    ensures
        t.web_texts(lang, n).contains_key(key) <==> i >= 0,
        i >= 0 ==> t.web_texts(lang, n)[key] == t.wording(lang, t.schema@[i]),
    decreases n,
{
    if n > 0 && i < n - 1 {
        assert(!(t.schema@[n - 1].web is Some && t.schema@[n - 1].web->0@ == key));
        last_text_with_the_web_key_counts(t, lang, key, n - 1, i);
    }
}

/// A file is one of a language where it is named by the code and `.json`, but for the
/// English one, which is the schema.
pub proof fn files_are_named_by_their_languages(code: Seq<char>)
    requires
        !ends_with(code, ".json"@),
    ensures
        code_of_file(code) is None,
        code != seq!['e', 'n'] ==> code_of_file(code + ".json"@) == Some(code),
        code == seq!['e', 'n'] ==> code_of_file(code + ".json"@) is None,
{
    reveal_strlit(".json");
    reveal_strlit("en.json");
    let name = code + ".json"@;
    assert(name.skip(name.len() - 5) =~= ".json"@);
    assert(name.take(name.len() - 5) =~= code);
    reveal_with_fuel(without_ending, 3);
    assert(seq!['e', 'n'] + ".json"@ =~= "en.json"@);
    if name == "en.json"@ {
        assert(code =~= "en.json"@.take(2));
        assert("en.json"@.take(2) =~= seq!['e', 'n']);
    }
}

} // verus!
