//! Looking up filaments, materials and brands in the lists that come with the
//! console. The lists are texts with a line for each entry and commas between the
//! fields.

use crate::numbers::{parse_i32, parse_unsigned, parsed};
use crate::text::{
    chars_of, contains, contains_text, cut, find_from, has_at, lines, lines_of, position,
    replace, replaced, same_chars, split, split_on, starts_with, text_of, views,
};
use crate::types::FilamentSupInfo;
use vstd::prelude::*;

verus! {

/// A field without the quotes around it; a doubled quote inside them is one quote.
pub open spec fn csv_field(s: Seq<char>) -> Seq<char> {
    if s.len() >= 2 && s[0] == '"' && s.last() == '"' {
        replaced(s.subrange(1, s.len() - 1), seq!['"', '"'], seq!['"'])
    } else {
        s
    }
}

/// Takes the quotes from a field.
pub fn decode_csv_field(s: &[char]) -> (r: String)
    ensures
        r@ == csv_field(s@),
{
    if s.len() >= 2 && s[0] == '"' && s[s.len() - 1] == '"' {
        let inner = cut(s, 1, s.len() - 1);
        let mut two: Vec<char> = Vec::new();
        two.push('"');
        two.push('"');
        let mut one: Vec<char> = Vec::new();
        one.push('"');
        proof {
            assert(two@ =~= seq!['"', '"']);
            assert(one@ =~= seq!['"']);
        }
        let plain = replace(inner.as_slice(), two.as_slice(), one.as_slice());
        text_of(plain.as_slice())
    } else {
        text_of(s)
    }
}

/// An entry of a filament list, with its first four fields.
pub ghost struct FilamentEntry {
    pub code: Seq<char>,
    pub name: Seq<char>,
    pub low: int,
    pub high: int,
}

/// A number, or zero where the text is none.
pub open spec fn number_or_zero(s: Seq<char>) -> int {
    match parsed(s, i32::MIN as int, i32::MAX as int) {
        Some(n) => n,
        None => 0,
    }
}

/// A line is the entry for a code.
pub open spec fn is_entry_for(line: Seq<char>, code: Seq<char>) -> bool {
    split_on(line, ',').len() >= 4 && split_on(line, ',')[0] == code
}

/// The entry in a line.
pub open spec fn entry_of(line: Seq<char>) -> FilamentEntry {
    let f = split_on(line, ',');
    FilamentEntry {
        code: f[0],
        name: csv_field(f[1]),
        low: number_or_zero(f[2]),
        high: number_or_zero(f[3]),
    }
}

/// The first entry for a code.
pub open spec fn find_entry(list: Seq<Seq<char>>, code: Seq<char>) -> Option<FilamentEntry>
    decreases list.len(),
{
    if list.len() == 0 {
        None
    } else if is_entry_for(list[0], code) {
        Some(entry_of(list[0]))
    } else {
        find_entry(list.skip(1), code)
    }
}

/// A line of the material list is for a material, and gives numbers for its
/// temperatures.
pub open spec fn is_material(line: Seq<char>, material: Seq<char>) -> bool {
    let f = split_on(line, ',');
    f.len() >= 4 && f[0] == material && parsed(f[2], 0, u32::MAX as int) is Some && parsed(f[3], 0, u32::MAX as int)
        is Some
}

/// The code of the filament that stands for a material.
pub open spec fn find_material(list: Seq<Seq<char>>, material: Seq<char>) -> Option<Seq<char>>
    decreases list.len(),
{
    if list.len() == 0 {
        None
    } else if is_material(list[0], material) {
        Some(split_on(list[0], ',')[1])
    } else {
        find_material(list.skip(1), material)
    }
}

/// The lists of filaments, materials and brands.
#[derive(Debug)]
pub struct FilamentLists {
    /// The slicer's own filaments: code, name, lowest and highest nozzle temperature.
    pub base_filaments: String,
    /// The user's filaments, likewise.
    pub custom_filaments: Option<String>,
    /// A title line, then the materials: name, code of a filament, temperatures.
    pub materials: String,
    /// The brands: a name, or a keyword and the name that it stands for.
    pub brands: String,
}

/// An entry that was found, and how.
pub ghost struct Found {
    pub entry: FilamentEntry,
    pub origin_is_material: bool,
    pub base_filament: bool,
}

impl FilamentLists {
    /// The filament for a code: one of the slicer's own, else one of the user's, else
    /// the one that stands for the material.
    pub open spec fn lookup(self, code: Seq<char>, material: Option<Seq<char>>) -> Option<Found> {
        let base = lines_of(self.base_filaments@);
        let custom = match self.custom_filaments {
            Some(list) => lines_of(list@),
            None => seq![],
        };
        if let Some(entry) = find_entry(base, code) {
            Some(Found { entry, origin_is_material: false, base_filament: true })
        } else if let Some(entry) = find_entry(custom, code) {
            Some(Found { entry, origin_is_material: false, base_filament: false })
        } else {
            let stands_for = match material {
                Some(m) => if lines_of(self.materials@).len() == 0 {
                    None
                } else {
                    find_material(lines_of(self.materials@).skip(1), m)
                },
                None => None,
            };
            match stands_for {
                Some(c) => match find_entry(base, c) {
                    Some(entry) => Some(Found { entry, origin_is_material: true, base_filament: true }),
                    None => None,
                },
                None => None,
            }
        }
    }

    /// Looks up the filament for a code, or for a material where there is none.
    pub fn get_filament_info(&self, search_code: &str, material: Option<&str>) -> (r: Option<FilamentSupInfo>)
        ensures
            ({
                let m = match material {
                    Some(text) => Some(text@),
                    None => None,
                };
                let found = self.lookup(search_code@, m);
                &&& r is Some <==> found is Some
                &&& r is Some ==> shows(r->0, found->0)
            }),
    {
        let code = chars_of(search_code);
        let base_text = chars_of(self.base_filaments.as_str());
        let base = lines(base_text.as_slice());
        if let Some(info) = search(&base, code.as_slice(), false, true) {
            return Some(info);
        }
        if let Some(list) = &self.custom_filaments {
            let custom_text = chars_of(list.as_str());
            let custom = lines(custom_text.as_slice());
            if let Some(info) = search(&custom, code.as_slice(), false, false) {
                return Some(info);
            }
        }
        if let Some(material) = material {
            let name = chars_of(material);
            let list_text = chars_of(self.materials.as_str());
            let list = lines(list_text.as_slice());
            if let Some(stand_in) = search_material(&list, name.as_slice()) {
                return search(&base, stand_in.as_slice(), true, true);
            }
        }
        None
    }
}

/// What was looked up is what was found.
pub open spec fn shows(r: FilamentSupInfo, found: Found) -> bool {
    &&& r.origin_is_material == found.origin_is_material
    &&& r.base_filament == found.base_filament
    &&& r.slicer_name@ == found.entry.name
    &&& r.slicer_code@ == found.entry.code
    &&& r.nozzle_temp_low == found.entry.low
    &&& r.nozzle_temp_high == found.entry.high
}

fn number_or_zero_of(s: &[char]) -> (r: i32)
    ensures
        r == number_or_zero(s@),
{
    match parse_i32(s) {
        Some(n) => n,
        None => 0,
    }
}

fn search(list: &Vec<Vec<char>>, code: &[char], origin_is_material: bool, base_filament: bool) -> (r: Option<
    FilamentSupInfo,
>)
    ensures
        r is Some <==> find_entry(views(list@), code@) is Some,
        r is Some ==> shows(
            r->0,
            Found { entry: find_entry(views(list@), code@)->0, origin_is_material, base_filament },
        ),
{
    let ghost all = views(list@);
    let mut i: usize = 0;
    proof {
        assert(all.skip(0) =~= all);
    }
    while i < list.len()
        invariant
            i <= list@.len(),
            all == views(list@),
            find_entry(all.skip(i as int), code@) == find_entry(all, code@),
        decreases list@.len() - i,
    {
        let fields = split(list[i].as_slice(), ',');
        let ghost f = views(fields@);
        proof {
            assert(all.skip(i as int)[0] == list@[i as int]@);
            assert(all.skip(i as int).skip(1) =~= all.skip(i + 1));
        }
        if fields.len() >= 4 {
            proof {
                assert(f[0] == fields@[0]@ && f[1] == fields@[1]@ && f[2] == fields@[2]@ && f[3] == fields@[3]@);
            }
            if same_chars(fields[0].as_slice(), code) {
                return Some(
                    FilamentSupInfo {
                        origin_is_material,
                        base_filament,
                        slicer_name: decode_csv_field(fields[1].as_slice()),
                        slicer_code: text_of(fields[0].as_slice()),
                        nozzle_temp_low: number_or_zero_of(fields[2].as_slice()),
                        nozzle_temp_high: number_or_zero_of(fields[3].as_slice()),
                    },
                );
            }
        }
        i += 1;
    }
    None
}

fn search_material(list: &Vec<Vec<char>>, material: &[char]) -> (r: Option<Vec<char>>)
    ensures
        ({
            let found = if list@.len() == 0 {
                None
            } else {
                find_material(views(list@).skip(1), material@)
            };
            &&& r is Some <==> found is Some
            &&& r is Some ==> r->0@ == found->0
        }),
{
    if list.len() == 0 {
        return None;
    }
    let ghost all = views(list@);
    let mut i: usize = 1;
    while i < list.len()
        invariant
            1 <= i <= list@.len(),
            all == views(list@),
            find_material(all.skip(i as int), material@) == find_material(all.skip(1), material@),
        decreases list@.len() - i,
    {
        let fields = split(list[i].as_slice(), ',');
        let ghost f = views(fields@);
        proof {
            assert(all.skip(i as int)[0] == list@[i as int]@);
            assert(all.skip(i as int).skip(1) =~= all.skip(i + 1));
        }
        if fields.len() >= 4 {
            proof {
                assert(f[0] == fields@[0]@ && f[1] == fields@[1]@ && f[2] == fields@[2]@ && f[3] == fields@[3]@);
            }
            if same_chars(fields[0].as_slice(), material) && parse_unsigned(
                fields[2].as_slice(),
                u32::MAX as u64,
            ).is_some() && parse_unsigned(fields[3].as_slice(), u32::MAX as u64).is_some() {
                let code = cut(fields[1].as_slice(), 0, fields[1].len());
                proof {
                    assert(code@ =~= f[1]);
                }
                return Some(code);
            }
        }
        i += 1;
    }
    None
}

/// A text in lower case.
pub uninterp spec fn lowered(s: Seq<char>) -> Seq<char>;

/// The lower case of an ASCII character.
pub open spec fn ascii_lower(c: char) -> char {
    if 'A' <= c && c <= 'Z' {
        (c as int + 32) as char
    } else {
        c
    }
}

/// `str::to_lowercase` follows the lower case mapping of Unicode. On ASCII text it
/// replaces each capital letter by its small letter.
#[verifier::external_body]
fn lower_case(s: &str) -> (r: String)
    ensures
        r@ == lowered(s@),
        (forall|i: int| 0 <= i < s@.len() ==> (#[trigger] s@[i] as u32) < 128) ==> r@ == s@.map_values(
            |c: char| ascii_lower(c),
        ),
{
    s.to_lowercase()
}

/// A brand: the keyword by which it is known, and its name.
pub ghost struct BrandEntry {
    pub keyword: Seq<char>,
    pub name: Seq<char>,
}

/// The brand in a line: keyword and name around the first comma, or a name that is its
/// own keyword.
pub open spec fn brand_of(line: Seq<char>) -> BrandEntry {
    let p = position(line, ',');
    if p < line.len() {
        BrandEntry { keyword: line.take(p), name: line.skip(p + 1) }
    } else {
        BrandEntry { keyword: line, name: line }
    }
}

/// The first name whose keyword begins the text.
pub open spec fn first_begun(text: Seq<char>, keywords: Seq<Seq<char>>, names: Seq<Seq<char>>) -> Option<Seq<char>>
    decreases keywords.len(),
{
    if keywords.len() == 0 {
        None
    } else if starts_with(text, keywords[0]) {
        Some(names[0])
    } else {
        first_begun(text, keywords.skip(1), names.skip(1))
    }
}

/// The first name whose keyword occurs in the text.
pub open spec fn first_contained(text: Seq<char>, keywords: Seq<Seq<char>>, names: Seq<Seq<char>>) -> Option<Seq<char>>
    decreases keywords.len(),
{
    if keywords.len() == 0 {
        None
    } else if contains_text(text, keywords[0]) {
        Some(names[0])
    } else {
        first_contained(text, keywords.skip(1), names.skip(1))
    }
}

/// The brand of a text: the first whose keyword begins it, else the first whose keyword
/// occurs in it.
pub open spec fn picked(text: Seq<char>, keywords: Seq<Seq<char>>, names: Seq<Seq<char>>) -> Option<Seq<char>> {
    match first_begun(text, keywords, names) {
        Some(name) => Some(name),
        None => first_contained(text, keywords, names),
    }
}

/// Picks the brand of a text. All texts are in one case.
pub fn pick_brand(text: &[char], keywords: &Vec<Vec<char>>, names: &Vec<Vec<char>>) -> (r: Option<String>)
    requires
        keywords@.len() == names@.len(),
    ensures
        ({
            let found = picked(text@, views(keywords@), views(names@));
            &&& r is Some <==> found is Some
            &&& r is Some ==> r->0@ == found->0
        }),
{
    let ghost all = views(keywords@);
    let ghost called = views(names@);
    let mut i: usize = 0;
    proof {
        assert(all.skip(0) =~= all);
        assert(called.skip(0) =~= called);
    }
    while i < keywords.len()
        invariant
            i <= keywords@.len() == names@.len(),
            all == views(keywords@),
            called == views(names@),
            first_begun(text@, all.skip(i as int), called.skip(i as int)) == first_begun(text@, all, called),
        decreases keywords@.len() - i,
    {
        proof {
            assert(all.skip(i as int)[0] == keywords@[i as int]@);
            assert(called.skip(i as int)[0] == names@[i as int]@);
            assert(all.skip(i as int).skip(1) =~= all.skip(i + 1));
            assert(called.skip(i as int).skip(1) =~= called.skip(i + 1));
            assert(text@.skip(0) =~= text@);
        }
        if has_at(text, 0, keywords[i].as_slice()) {
            return Some(text_of(names[i].as_slice()));
        }
        i += 1;
    }
    i = 0;
    while i < keywords.len()
        invariant
            i <= keywords@.len() == names@.len(),
            all == views(keywords@),
            called == views(names@),
            first_begun(text@, all, called) is None,
            first_contained(text@, all.skip(i as int), called.skip(i as int)) == first_contained(text@, all, called),
        decreases keywords@.len() - i,
    {
        proof {
            assert(all.skip(i as int)[0] == keywords@[i as int]@);
            assert(called.skip(i as int)[0] == names@[i as int]@);
            assert(all.skip(i as int).skip(1) =~= all.skip(i + 1));
            assert(called.skip(i as int).skip(1) =~= called.skip(i + 1));
        }
        if contains(text, keywords[i].as_slice()) {
            return Some(text_of(names[i].as_slice()));
        }
        i += 1;
    }
    None
}

impl FilamentLists {
    /// The keywords of the brands, in lower case.
    pub open spec fn brand_keywords(self) -> Seq<Seq<char>> {
        lines_of(self.brands@).map_values(|line: Seq<char>| lowered(brand_of(line).keyword))
    }

    /// The names of the brands.
    pub open spec fn brand_names(self) -> Seq<Seq<char>> {
        lines_of(self.brands@).map_values(|line: Seq<char>| brand_of(line).name)
    }

    /// The brand that a text names, whatever its case.
    pub fn get_brand_from_text(&self, text: &str) -> (r: Option<String>)
        ensures
            ({
                let found = picked(lowered(text@), self.brand_keywords(), self.brand_names());
                &&& r is Some <==> found is Some
                &&& r is Some ==> r->0@ == found->0
            }),
    {
        let list_text = chars_of(self.brands.as_str());
        let list = lines(list_text.as_slice());
        let ghost all = views(list@);
        let mut keywords: Vec<Vec<char>> = Vec::new();
        let mut names: Vec<Vec<char>> = Vec::new();
        let mut i: usize = 0;
        while i < list.len()
            invariant
                i <= list@.len(),
                all == views(list@),
                keywords@.len() == i,
                names@.len() == i,
                forall|j: int| 0 <= j < i ==> (#[trigger] keywords@[j])@ == lowered(brand_of(all[j]).keyword),
                forall|j: int| 0 <= j < i ==> (#[trigger] names@[j])@ == brand_of(all[j]).name,
            decreases list@.len() - i,
        {
            let line = &list[i];
            proof {
                assert(all[i as int] == line@);
                assert(line@.skip(0) =~= line@);
            }
            let comma = find_from(line.as_slice(), ',', 0);
            let keyword = cut(line.as_slice(), 0, comma);
            proof {
                assert(line@.take(line@.len() as int) =~= line@);
                assert(keyword@ =~= brand_of(line@).keyword);
            }
            let name = if comma < line.len() {
                cut(line.as_slice(), comma + 1, line.len())
            } else {
                cut(line.as_slice(), 0, line.len())
            };
            proof {
                assert(name@ =~= brand_of(line@).name);
            }
            let keyword_text = text_of(keyword.as_slice());
            let low = lower_case(keyword_text.as_str());
            keywords.push(chars_of(low.as_str()));
            names.push(name);
            i += 1;
        }
        proof {
            assert(views(keywords@) =~= self.brand_keywords());
            assert(views(names@) =~= self.brand_names());
        }
        let low_text = lower_case(text);
        let low = chars_of(low_text.as_str());
        pick_brand(low.as_slice(), &keywords, &names)
    }
}

/// A field in quotes, with every quote inside doubled.
pub open spec fn quoted(s: Seq<char>) -> Seq<char> {
    seq!['"'] + replaced(s, seq!['"'], seq!['"', '"']) + seq!['"']
}

proof fn lemma_quotes_undone(u: Seq<char>)
    ensures
        replaced(replaced(u, seq!['"'], seq!['"', '"']), seq!['"', '"'], seq!['"']) == u,
    decreases u.len(),
{
    let one = seq!['"'];
    let two = seq!['"', '"'];
    let t = replaced(u, one, two);
    if u.len() > 0 {
        lemma_quotes_undone(u.skip(1));
        let rest = replaced(u.skip(1), one, two);
        if u[0] == '"' {
            assert(u.take(1) =~= one);
            assert(t == two + rest);
            assert(t.take(2) =~= two);
            assert(t.skip(2) =~= rest);
            assert(one + u.skip(1) =~= u);
        } else {
            assert(u.take(1)[0] != one[0]);
            assert(t == seq![u[0]] + rest);
            assert(!starts_with(t, two)) by {
                if starts_with(t, two) {
                    assert(t.take(2)[0] == '"');
                }
            }
            assert(t.skip(1) =~= rest);
            assert(seq![u[0]] + u.skip(1) =~= u);
        }
    }
}

/// A field in quotes is read as what was put into them; one without is read as it stands.
pub proof fn quoted_field_reads_back(s: Seq<char>)
    ensures
        csv_field(quoted(s)) == s,
        !(s.len() >= 2 && s[0] == '"' && s.last() == '"') ==> csv_field(s) == s,
{
    let q = quoted(s);
    assert(q.subrange(1, q.len() - 1) =~= replaced(s, seq!['"'], seq!['"', '"']));
    lemma_quotes_undone(s);
}

/// The first line with four fields or more that begins with a code is the entry for it:
/// with the name in its second field, and the temperatures in the next two, or zero where
/// these are no numbers.
pub proof fn first_entry_with_the_code_is_found(list: Seq<Seq<char>>, code: Seq<char>, i: int)
    requires
        0 <= i <= list.len(),
        forall|j: int|
            0 <= j < i ==> split_on(#[trigger] list[j], ',').len() < 4 || split_on(list[j], ',')[0] != code,
        i < list.len() ==> split_on(list[i], ',').len() >= 4 && split_on(list[i], ',')[0] == code,
    ensures
        i == list.len() ==> find_entry(list, code) is None,
        i < list.len() ==> {
            let f = split_on(list[i], ',');
            let e = find_entry(list, code)->0;
            &&& find_entry(list, code) is Some
            &&& e.code == code
            &&& e.name == csv_field(f[1])
            &&& e.low == (match parsed(f[2], i32::MIN as int, i32::MAX as int) {
                Some(n) => n,
                None => 0,
            })
            &&& e.high == (match parsed(f[3], i32::MIN as int, i32::MAX as int) {
                Some(n) => n,
                None => 0,
            })
        },
    decreases list.len(),
{
    if list.len() > 0 && i > 0 {
        assert(!is_entry_for(list[0], code));
        let rest = list.skip(1);
        assert forall|j: int| 0 <= j < i - 1 implies split_on(#[trigger] rest[j], ',').len() < 4 || split_on(
            rest[j],
            ',',
        )[0] != code by {
            assert(rest[j] == list[j + 1]);
        }
        first_entry_with_the_code_is_found(rest, code, i - 1);
    }
}

/// The first line with four fields or more that begins with a material, and whose
/// temperatures are numbers, names the filament that stands for it.
pub proof fn first_line_of_the_material_names_its_filament(list: Seq<Seq<char>>, material: Seq<char>, i: int)
    requires
        0 <= i <= list.len(),
        forall|j: int|
            0 <= j < i ==> {
                let f = split_on(#[trigger] list[j], ',');
                f.len() < 4 || f[0] != material || parsed(f[2], 0, u32::MAX as int) is None || parsed(
                    f[3],
                    0,
                    u32::MAX as int,
                ) is None
            },
        i < list.len() ==> {
            let f = split_on(list[i], ',');
            f.len() >= 4 && f[0] == material && parsed(f[2], 0, u32::MAX as int) is Some && parsed(
                f[3],
                0,
                u32::MAX as int,
            ) is Some
        },
    ensures
        find_material(list, material) == (if i < list.len() {
            Some(split_on(list[i], ',')[1])
        } else {
            None
        }),
    decreases list.len(),
{
    if list.len() > 0 && i > 0 {
        assert(!is_material(list[0], material)) by {
            assert(list[0] == list[0]);
        }
        let rest = list.skip(1);
        assert forall|j: int| 0 <= j < i - 1 implies {
            let f = split_on(#[trigger] rest[j], ',');
            f.len() < 4 || f[0] != material || parsed(f[2], 0, u32::MAX as int) is None || parsed(
                f[3],
                0,
                u32::MAX as int,
            ) is None
        } by {
            assert(rest[j] == list[j + 1]);
        }
        first_line_of_the_material_names_its_filament(rest, material, i - 1);
    }
}

/// A code is looked for among the slicer's own filaments, then among the user's. Only where
/// it is in neither does the filament count that stands for the material, and that is one
/// of the slicer's own. The first line of the materials is their title.
pub proof fn own_filaments_go_before_the_users(lists: FilamentLists, code: Seq<char>, material: Option<Seq<char>>)
    ensures
        ({
            let base = lines_of(lists.base_filaments@);
            let own = find_entry(base, code);
            let users = if lists.custom_filaments is Some {
                find_entry(lines_of(lists.custom_filaments->0@), code)
            } else {
                None
            };
            let materials = lines_of(lists.materials@);
            let stands_for = if material is Some && materials.len() > 0 {
                find_material(materials.subrange(1, materials.len() as int), material->0)
            } else {
                None
            };
            let found = lists.lookup(code, material);
            &&& own is Some ==> found == Some(
                Found { entry: own->0, origin_is_material: false, base_filament: true },
            )
            &&& own is None && users is Some ==> found == Some(
                Found { entry: users->0, origin_is_material: false, base_filament: false },
            )
            &&& own is None && users is None && stands_for is None ==> found is None
            &&& own is None && users is None && stands_for is Some ==> {
                let entry = find_entry(base, stands_for->0);
                &&& found is Some <==> entry is Some
                &&& found is Some ==> found->0 == (Found {
                    entry: entry->0,
                    origin_is_material: true,
                    base_filament: true,
                })
            }
        }),
{
    let materials = lines_of(lists.materials@);
    if materials.len() > 0 {
        assert(materials.skip(1) =~= materials.subrange(1, materials.len() as int));
    }
}

/// What is handed out of a filament is what was found of it.
pub proof fn found_filament_is_handed_out(r: FilamentSupInfo, found: Found)
    ensures
        shows(r, found) <==> r.slicer_code@ == found.entry.code && r.slicer_name@ == found.entry.name && r.nozzle_temp_low
            == found.entry.low && r.nozzle_temp_high == found.entry.high && r.origin_is_material
            == found.origin_is_material && r.base_filament == found.base_filament,
{
}

/// A line of the brands is a keyword and a name around its first comma, or both in one.
pub proof fn keyword_stands_before_the_comma(keyword: Seq<char>, name: Seq<char>)
    requires
        !keyword.contains(','),
    ensures
        brand_of(keyword + seq![','] + name).keyword == keyword,
        brand_of(keyword + seq![','] + name).name == name,
        brand_of(keyword).keyword == keyword,
        brand_of(keyword).name == keyword,
{
    let line = keyword + seq![','] + name;
    assert forall|i: int| 0 <= i < keyword.len() implies keyword[i] != ',' by {
        assert(keyword.contains(keyword[i]));
    }
    crate::text::lemma_position_is(line, ',', keyword.len() as int);
    crate::text::lemma_position_is(keyword, ',', keyword.len() as int);
    assert(line.take(keyword.len() as int) =~= keyword);
    assert(line.skip(keyword.len() as int + 1) =~= name);
}

/// Every line of the brands gives one keyword, in lower case, and its name.
pub proof fn lines_are_brands(lists: FilamentLists)
    ensures
        lists.brand_keywords().len() == lines_of(lists.brands@).len(),
        lists.brand_names().len() == lines_of(lists.brands@).len(),
        forall|i: int|
            0 <= i < lines_of(lists.brands@).len() ==> #[trigger] lists.brand_keywords()[i] == lowered(
                brand_of(lines_of(lists.brands@)[i]).keyword,
            ),
        forall|i: int|
            0 <= i < lines_of(lists.brands@).len() ==> #[trigger] lists.brand_names()[i] == brand_of(
                lines_of(lists.brands@)[i],
            ).name,
{
}

/// The brand of a text is the first one whose keyword begins it.
pub proof fn keyword_at_the_beginning_goes_first(
    text: Seq<char>,
    keywords: Seq<Seq<char>>,
    names: Seq<Seq<char>>,
    i: int,
)
    requires
        keywords.len() == names.len(),
        0 <= i < keywords.len(),
        starts_with(text, keywords[i]),
        forall|j: int| 0 <= j < i ==> !starts_with(text, #[trigger] keywords[j]),
    ensures
        picked(text, keywords, names) == Some(names[i]),
{
    lemma_first_begun(text, keywords, names, i);
}

proof fn lemma_first_begun(text: Seq<char>, keywords: Seq<Seq<char>>, names: Seq<Seq<char>>, i: int)
    requires
        keywords.len() == names.len(),
        0 <= i <= keywords.len(),
        i < keywords.len() ==> starts_with(text, keywords[i]),
        forall|j: int| 0 <= j < i ==> !starts_with(text, #[trigger] keywords[j]),
    ensures
        first_begun(text, keywords, names) == (if i < keywords.len() {
            Some(names[i])
        } else {
            None
        }),
    decreases keywords.len(),
{
    if keywords.len() > 0 && i > 0 {
        assert(!starts_with(text, keywords[0]));
        assert forall|j: int| 0 <= j < i - 1 implies !starts_with(text, #[trigger] keywords.skip(1)[j]) by {
            assert(keywords.skip(1)[j] == keywords[j + 1]);
        }
        lemma_first_begun(text, keywords.skip(1), names.skip(1), i - 1);
    }
}

/// Where no keyword begins a text, its brand is the first one whose keyword occurs in it,
/// and there is none where none does.
pub proof fn keyword_inside_goes_next(text: Seq<char>, keywords: Seq<Seq<char>>, names: Seq<Seq<char>>, i: int)
    requires
        keywords.len() == names.len(),
        0 <= i <= keywords.len(),
        forall|j: int| 0 <= j < keywords.len() ==> !starts_with(text, #[trigger] keywords[j]),
        i < keywords.len() ==> contains_text(text, keywords[i]),
        forall|j: int| 0 <= j < i ==> !contains_text(text, #[trigger] keywords[j]),
    ensures
        picked(text, keywords, names) == (if i < keywords.len() {
            Some(names[i])
        } else {
            None
        }),
{
    lemma_first_begun(text, keywords, names, keywords.len() as int);
    lemma_first_contained(text, keywords, names, i);
}

proof fn lemma_first_contained(text: Seq<char>, keywords: Seq<Seq<char>>, names: Seq<Seq<char>>, i: int)
    requires
        keywords.len() == names.len(),
        0 <= i <= keywords.len(),
        i < keywords.len() ==> contains_text(text, keywords[i]),
        forall|j: int| 0 <= j < i ==> !contains_text(text, #[trigger] keywords[j]),
    ensures
        first_contained(text, keywords, names) == (if i < keywords.len() {
            Some(names[i])
        } else {
            None
        }),
    decreases keywords.len(),
{
    if keywords.len() > 0 && i > 0 {
        assert(!contains_text(text, keywords[0]));
        assert forall|j: int| 0 <= j < i - 1 implies !contains_text(text, #[trigger] keywords.skip(1)[j]) by {
            assert(keywords.skip(1)[j] == keywords[j + 1]);
        }
        lemma_first_contained(text, keywords.skip(1), names.skip(1), i - 1);
    }
}

} // verus!
