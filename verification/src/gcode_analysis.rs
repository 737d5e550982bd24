//! Reading of gcode: the file arrives in pieces, is cut into lines, and each line
//! turns into what it asks of the extrusion account. The account itself, which is
//! kept in floating point, belongs to the application.

use crate::numbers::{int_text, number_reads_back, parse_i32, parse_unsigned, parsed};
use crate::text::{
    beginning_goes_by_characters, begins, chars_of, cut, lemma_lists_marked, lemma_position, lemma_position_is, lines,
    lines_of, lists_marked, position, split, split_on, starts_with, strings_of, text_of, texts, utf8_text, views,
    without_cr,
};
use crate::text_map::NumberMap;
use vstd::prelude::*;
use vstd::utf8::{
    decode_utf8, decode_utf8_split, is_char_boundary_iff_not_is_continuation_byte, is_char_boundary_start_end_of_seq,
    pop_first_scalar, valid_utf8, valid_utf8_concat, valid_utf8_split,
};

verus! {

/// Why gcode cannot be read.
#[derive(Clone, Copy, Debug, PartialEq, Eq, Structural)]
pub enum GcodeError {
    NotUtf8,
    FilamentIds,
}

/// What a line of gcode is.
#[derive(Clone, Copy, Debug, PartialEq, Eq, Structural)]
pub enum LineKind {
    LayerChange,
    FilamentChange,
    PullBack,
    Move,
    TotalLayers,
    Density,
    Diameter,
    FilamentIds,
    Other,
}

/// What a line of gcode asks of the extrusion account.
#[derive(Debug)]
pub enum GcodeAction {
    /// Enter what was extruded, and start from nothing.
    CloseEntry { layer: i32, filament_id: i32 },
    /// Enter what was extruded if it is more than nothing, and start from nothing.
    CloseEntryIfExtruded { layer: i32, loaded: Option<i32> },
    /// A new filament starts at position zero.
    ResetPosition,
    /// Extrude by a length.
    Extrude { length: String },
    /// Pull filament back by a length.
    PullBack { length: String },
    /// The density of the next filament.
    Density { value: String },
    /// The diameter of the next filament.
    Diameter { value: String },
    /// Room for this many entries will be needed.
    Reserve { entries: usize },
}

/// A `GcodeAction` with its texts as sequences.
pub ghost enum ActionView {
    CloseEntry { layer: i32, filament_id: i32 },
    CloseEntryIfExtruded { layer: i32, loaded: Option<i32> },
    ResetPosition,
    Extrude { length: Seq<char> },
    PullBack { length: Seq<char> },
    Density { value: Seq<char> },
    Diameter { value: Seq<char> },
    Reserve { entries: usize },
}

impl View for GcodeAction {
    type V = ActionView;

    open spec fn view(&self) -> ActionView {
        match self {
            GcodeAction::CloseEntry { layer, filament_id } => ActionView::CloseEntry {
                layer: *layer,
                filament_id: *filament_id,
            },
            GcodeAction::CloseEntryIfExtruded { layer, loaded } => ActionView::CloseEntryIfExtruded {
                layer: *layer,
                loaded: *loaded,
            },
            GcodeAction::ResetPosition => ActionView::ResetPosition,
            GcodeAction::Extrude { length } => ActionView::Extrude { length: length@ },
            GcodeAction::PullBack { length } => ActionView::PullBack { length: length@ },
            GcodeAction::Density { value } => ActionView::Density { value: value@ },
            GcodeAction::Diameter { value } => ActionView::Diameter { value: value@ },
            GcodeAction::Reserve { entries } => ActionView::Reserve { entries: *entries },
        }
    }
}

/// The views of a list of actions.
pub open spec fn action_views(v: Seq<GcodeAction>) -> Seq<ActionView> {
    v.map_values(|a: GcodeAction| a@)
}

/// What a line is, by how it begins.
pub open spec fn kind_of(line: Seq<char>) -> LineKind {
    if starts_with(line, "; CHANGE_LAYER"@) {
        LineKind::LayerChange
    } else if starts_with(line, "M620 S"@) {
        LineKind::FilamentChange
    } else if starts_with(line, "M620.11"@) {
        LineKind::PullBack
    } else if starts_with(line, "G"@) {
        LineKind::Move
    } else if starts_with(line, "; total layer number: "@) {
        LineKind::TotalLayers
    } else if starts_with(line, "; filament_density: "@) {
        LineKind::Density
    } else if starts_with(line, "; filament_diameter: "@) {
        LineKind::Diameter
    } else if starts_with(line, "; filament: "@) {
        LineKind::FilamentIds
    } else {
        LineKind::Other
    }
}

/// Tells what a line is.
pub fn classify(line: &[char]) -> (r: LineKind)
    ensures
        r == kind_of(line@),
{
    if begins(line, "; CHANGE_LAYER") {
        LineKind::LayerChange
    } else if begins(line, "M620 S") {
        LineKind::FilamentChange
    } else if begins(line, "M620.11") {
        LineKind::PullBack
    } else if begins(line, "G") {
        LineKind::Move
    } else if begins(line, "; total layer number: ") {
        LineKind::TotalLayers
    } else if begins(line, "; filament_density: ") {
        LineKind::Density
    } else if begins(line, "; filament_diameter: ") {
        LineKind::Diameter
    } else if begins(line, "; filament: ") {
        LineKind::FilamentIds
    } else {
        LineKind::Other
    }
}

/// What stands behind the prefix `p`.
pub open spec fn behind(line: Seq<char>, p: Seq<char>) -> Seq<char> {
    line.skip(p.len() as int)
}

/// The lengths that the words `E..` of a line give.
pub open spec fn lengths(words: Seq<Seq<char>>) -> Seq<Seq<char>>
    decreases words.len(),
{
    if words.len() == 0 {
        seq![]
    } else if words.last().len() > 0 && words.last()[0] == 'E' {
        lengths(words.drop_last()).push(words.last().skip(1))
    } else {
        lengths(words.drop_last())
    }
}

/// A word `S..A` that selects a filament.
pub open spec fn selects(word: Seq<char>) -> bool {
    word.len() > 0 && word[0] == 'S' && word.last() == 'A'
}

/// The filament that a word `S..A` selects.
pub open spec fn selected(word: Seq<char>) -> Option<int> {
    parsed(word.subrange(1, word.len() - 1), i32::MIN as int, i32::MAX as int)
}

/// The filaments that the words `S..A` of a line select.
pub open spec fn selections(words: Seq<Seq<char>>) -> Seq<i32>
    decreases words.len(),
{
    if words.len() == 0 {
        seq![]
    } else if selects(words.last()) {
        selections(words.drop_last()).push(selected(words.last())->0 as i32)
    } else {
        selections(words.drop_last())
    }
}

/// Every word `S..A` selects a filament by a number.
pub open spec fn selections_are_numbers(words: Seq<Seq<char>>) -> bool {
    forall|i: int| 0 <= i < words.len() && selects(#[trigger] words[i]) ==> selected(words[i]) is Some
}

/// The extruder while gcode is read: the layer, the filament in it, the number of
/// changes of filament, and what is asked of the extrusion account.
pub ghost struct Extruder {
    pub layer: i32,
    pub filament_id: Option<i32>,
    pub swaps: int,
    pub actions: Seq<ActionView>,
}

/// The extruder before any line.
pub open spec fn at_rest() -> Extruder {
    Extruder { layer: 0, filament_id: None, swaps: 0, actions: seq![] }
}

/// A filament is selected: what was extruded is entered for the one before, and
/// another filament is a swap and starts at position zero.
pub open spec fn select(e: Extruder, filament_id: i32) -> Extruder {
    let closed = e.actions.push(ActionView::CloseEntryIfExtruded { layer: e.layer, loaded: e.filament_id });
    Extruder {
        layer: e.layer,
        filament_id: Some(filament_id),
        swaps: if e.filament_id != Some(filament_id) {
            e.swaps + 1
        } else {
            e.swaps
        },
        actions: if e.filament_id != Some(filament_id) {
            closed.push(ActionView::ResetPosition)
        } else {
            closed
        },
    }
}

/// Filaments are selected one after another.
pub open spec fn select_all(e: Extruder, ids: Seq<i32>) -> Extruder
    decreases ids.len(),
{
    if ids.len() == 0 {
        e
    } else {
        select(select_all(e, ids.drop_last()), ids.last())
    }
}

/// The extruder after a line, with what the line asks of the extrusion account behind
/// what was asked before.
pub open spec fn step(e: Extruder, line: Seq<char>) -> Extruder {
    match kind_of(line) {
        LineKind::LayerChange => Extruder {
            layer: (e.layer + 1) as i32,
            actions: e.actions.push(ActionView::CloseEntry { layer: e.layer, filament_id: e.filament_id->0 }),
            ..e
        },
        LineKind::FilamentChange => select_all(e, selections(split_on(line, ' '))),
        LineKind::PullBack => Extruder {
            actions: e.actions + lengths(split_on(line, ' ')).map_values(
                |length: Seq<char>| ActionView::PullBack { length },
            ),
            ..e
        },
        LineKind::Move => Extruder {
            actions: e.actions + lengths(split_on(line, ' ')).map_values(
                |length: Seq<char>| ActionView::Extrude { length },
            ),
            ..e
        },
        LineKind::TotalLayers => match parsed(behind(line, "; total layer number: "@), 0, usize::MAX as int) {
            Some(n) => Extruder { actions: e.actions.push(ActionView::Reserve { entries: n as usize }), ..e },
            None => e,
        },
        LineKind::Density => Extruder {
            actions: e.actions + split_on(behind(line, "; filament_density: "@), ',').map_values(
                |value: Seq<char>| ActionView::Density { value },
            ),
            ..e
        },
        LineKind::Diameter => Extruder {
            actions: e.actions + split_on(behind(line, "; filament_diameter: "@), ',').map_values(
                |value: Seq<char>| ActionView::Diameter { value },
            ),
            ..e
        },
        _ => e,
    }
}

/// A line can be read: a layer ends only with a filament loaded, filaments are
/// selected and numbered by numbers, and the counters have room.
pub open spec fn can_step(e: Extruder, line: Seq<char>) -> bool {
    match kind_of(line) {
        LineKind::LayerChange => e.filament_id is Some && e.layer < i32::MAX,
        LineKind::FilamentChange => {
            let words = split_on(line, ' ');
            selections_are_numbers(words) && e.swaps + words.len() <= i32::MAX
        },
        LineKind::FilamentIds => ids_count_from_one(split_on(behind(line, "; filament: "@), ',')),
        _ => true,
    }
}

/// How many of the words are filament numbers, up to the first that is none.
pub open spec fn good_ids(words: Seq<Seq<char>>) -> int
    decreases words.len(),
{
    if words.len() == 0 || parsed(words[0], 0, 255) is None {
        0
    } else {
        1 + good_ids(words.skip(1))
    }
}

/// The numbers count from one: none is zero up to the first word that is no number.
pub open spec fn ids_count_from_one(words: Seq<Seq<char>>) -> bool {
    forall|i: int| 0 <= i < good_ids(words) ==> parsed(#[trigger] words[i], 0, 255) != Some(0int)
}

/// The filament indices with the first `n` words added: the number of the i-th word,
/// less one, has index i.
pub open spec fn indexed(m: Map<i32, usize>, words: Seq<Seq<char>>, n: int) -> Map<i32, usize>
    decreases n,
{
    if n <= 0 {
        m
    } else {
        indexed(m, words, n - 1).insert((parsed(words[n - 1], 0, 255)->0 - 1) as i32, (n - 1) as usize)
    }
}

proof fn lemma_good_ids(words: Seq<Seq<char>>, k: int)
    requires
        0 <= k <= words.len(),
        forall|i: int| 0 <= i < k ==> parsed(#[trigger] words[i], 0, 255) is Some,
    ensures
        good_ids(words) >= k,
        good_ids(words) <= words.len(),
        k < words.len() && parsed(words[k], 0, 255) is None ==> good_ids(words) == k,
    decreases words.len(),
{
    if words.len() > 0 && parsed(words[0], 0, 255) is Some {
        if k > 0 {
            assert forall|i: int| 0 <= i < k - 1 implies parsed(#[trigger] words.skip(1)[i], 0, 255) is Some by {
                assert(words.skip(1)[i] == words[i + 1]);
            }
            lemma_good_ids(words.skip(1), k - 1);
        } else {
            lemma_good_ids(words.skip(1), 0);
        }
    }
}

/// Where the last complete line ends: behind the last line feed.
pub open spec fn line_end(s: Seq<u8>) -> int
    decreases s.len(),
{
    if s.len() == 0 {
        0
    } else if s.last() == 10 {
        s.len() as int
    } else {
        line_end(s.drop_last())
    }
}

/// The complete lines at the head of `s`.
pub open spec fn complete(s: Seq<u8>) -> Seq<u8> {
    s.take(line_end(s))
}

/// What is left of `s` behind its complete lines.
pub open spec fn incomplete(s: Seq<u8>) -> Seq<u8> {
    s.skip(line_end(s))
}

proof fn lemma_line_end(s: Seq<u8>)
    ensures
        0 <= line_end(s) <= s.len(),
        line_end(s) > 0 ==> s[line_end(s) - 1] == 10,
        forall|i: int| line_end(s) <= i < s.len() ==> s[i] != 10,
    decreases s.len(),
{
    if s.len() > 0 && s.last() != 10 {
        lemma_line_end(s.drop_last());
        assert forall|i: int| line_end(s) <= i < s.len() implies s[i] != 10 by {
            if i < s.len() - 1 {
                assert(s.drop_last()[i] != 10);
            }
        }
    }
}

proof fn lemma_line_end_is(s: Seq<u8>, k: int)
    requires
        0 <= k <= s.len(),
        k > 0 ==> s[k - 1] == 10,
        forall|i: int| k <= i < s.len() ==> s[i] != 10,
    ensures
        line_end(s) == k,
{
    lemma_line_end(s);
}

fn find_line_end(s: &Vec<u8>) -> (r: usize)
    ensures
        r == line_end(s@),
        r <= s@.len(),
{
    let mut i: usize = s.len();
    while i > 0 && s[i - 1] != 10
        invariant
            i <= s@.len(),
            forall|j: int| i <= j < s@.len() ==> s@[j] != 10,
        decreases i,
    {
        i -= 1;
    }
    proof {
        lemma_line_end_is(s@, i as int);
    }
    i
}

/// Reads the gcode of a print.
pub struct GcodeFilamentCalc {
    /// The slots of the print, without the unused ones.
    pub ams_slots: Vec<i32>,
    /// The index of a filament in the slicer, by its number in the gcode.
    pub gcode_filament_id_to_slicer_filament_index: NumberMap<usize>,
    /// How often the filament was changed.
    pub filament_swaps: i32,
    /// What has arrived of a line that is not complete.
    pub gcode_buffer: Vec<u8>,
    /// The number of lines so far.
    pub curr_gcode_line: usize,
    /// The filament in the extruder.
    pub curr_filament_id: Option<i32>,
    /// The layer, counted from zero.
    pub curr_layer: i32,
}

/// The slots that are in use: -1 marks one that is not.
pub open spec fn used_slots(mapping: Seq<i32>) -> Seq<i32>
    decreases mapping.len(),
{
    if mapping.len() == 0 {
        seq![]
    } else if mapping.last() != -1 {
        used_slots(mapping.drop_last()).push(mapping.last())
    } else {
        used_slots(mapping.drop_last())
    }
}

impl GcodeFilamentCalc {
    /// Nothing read yet.
    pub fn new() -> (r: Self)
        ensures
            r.ams_slots@.len() == 0,
            r.gcode_filament_id_to_slicer_filament_index.wf(),
            r.gcode_filament_id_to_slicer_filament_index@ == Map::<i32, usize>::empty(),
            r.filament_swaps == 0,
            r.gcode_buffer@.len() == 0,
            r.curr_gcode_line == 0,
            r.curr_filament_id is None,
            r.curr_layer == 0,
            r.extruder() == at_rest(),
    {
        GcodeFilamentCalc {
            ams_slots: Vec::new(),
            gcode_filament_id_to_slicer_filament_index: NumberMap::new(),
            filament_swaps: 0,
            gcode_buffer: Vec::new(),
            curr_gcode_line: 0,
            curr_filament_id: None,
            curr_layer: 0,
        }
    }

    /// Everything but the slots of the print.
    pub open spec fn same_but_slots(self, o: GcodeFilamentCalc) -> bool {
        &&& self.gcode_filament_id_to_slicer_filament_index == o.gcode_filament_id_to_slicer_filament_index
        &&& self.filament_swaps == o.filament_swaps
        &&& self.gcode_buffer == o.gcode_buffer
        &&& self.curr_gcode_line == o.curr_gcode_line
        &&& self.curr_filament_id == o.curr_filament_id
        &&& self.curr_layer == o.curr_layer
    }

    /// Adds the slots of the print's slot mapping.
    pub fn set_bbl_info(&mut self, ams_mapping: &Vec<i32>)
        ensures
            final(self).ams_slots@ == old(self).ams_slots@ + used_slots(ams_mapping@),
            final(self).same_but_slots(*old(self)),
    {
        let mut i: usize = 0;
        proof {
            assert(ams_mapping@.take(0).len() == 0);
            assert(self.ams_slots@ + used_slots(ams_mapping@.take(0)) =~= self.ams_slots@);
        }
        while i < ams_mapping.len()
            invariant
                i <= ams_mapping@.len(),
                self.same_but_slots(*old(self)),
                self.ams_slots@ == old(self).ams_slots@ + used_slots(ams_mapping@.take(i as int)),
            decreases ams_mapping@.len() - i,
        {
            let slot = ams_mapping[i];
            proof {
                assert(ams_mapping@.take(i + 1).drop_last() =~= ams_mapping@.take(i as int));
            }
            if slot != -1 {
                self.ams_slots.push(slot);
                proof {
                    assert(self.ams_slots@ =~= old(self).ams_slots@ + used_slots(ams_mapping@.take(i + 1)));
                }
            }
            i += 1;
        }
        proof {
            assert(ams_mapping@.take(ams_mapping@.len() as int) =~= ams_mapping@);
        }
    }

    /// Everything but the line that is not complete.
    pub open spec fn same_but_buffer(self, o: GcodeFilamentCalc) -> bool {
        &&& self.ams_slots == o.ams_slots
        &&& self.gcode_filament_id_to_slicer_filament_index == o.gcode_filament_id_to_slicer_filament_index
        &&& self.filament_swaps == o.filament_swaps
        &&& self.curr_gcode_line == o.curr_gcode_line
        &&& self.curr_filament_id == o.curr_filament_id
        &&& self.curr_layer == o.curr_layer
    }

    /// Takes a piece of the file and gives the lines that it completes, in order. What
    /// stands behind them waits for the next piece; where the lines are not text,
    /// nothing waits.
    pub fn add_buffer(&mut self, buffer: &[u8]) -> (r: Result<Vec<String>, GcodeError>)
        ensures
            final(self).same_but_buffer(*old(self)),
            ({
                let bytes = old(self).gcode_buffer@ + buffer@;
                match r {
                    Ok(read) => {
                        &&& valid_utf8(complete(bytes))
                        &&& texts(read@) == lines_of(decode_utf8(complete(bytes)))
                        &&& final(self).gcode_buffer@ == incomplete(bytes)
                    },
                    Err(e) => {
                        &&& e == GcodeError::NotUtf8
                        &&& !valid_utf8(complete(bytes))
                        &&& final(self).gcode_buffer@.len() == 0
                    },
                }
            }),
    {
        self.gcode_buffer.extend_from_slice(buffer);
        let ghost bytes = old(self).gcode_buffer@ + buffer@;
        proof {
            assert(self.gcode_buffer@ =~= bytes);
        }
        let end = find_line_end(&self.gcode_buffer);
        let mut head: Vec<u8> = Vec::new();
        let mut tail: Vec<u8> = Vec::new();
        let mut i: usize = 0;
        while i < self.gcode_buffer.len()
            invariant
                i <= self.gcode_buffer@.len(),
                self.same_but_buffer(*old(self)),
                self.gcode_buffer@ == bytes,
                end == line_end(bytes),
                0 <= end <= bytes.len(),
                i <= end ==> head@ == bytes.take(i as int) && tail@.len() == 0,
                i >= end ==> head@ == bytes.take(end as int) && tail@ == bytes.subrange(end as int, i as int),
            decreases self.gcode_buffer@.len() - i,
        {
            let b = self.gcode_buffer[i];
            if i < end {
                head.push(b);
                proof {
                    assert(bytes.take(i + 1) =~= bytes.take(i as int).push(b));
                }
            } else {
                tail.push(b);
                proof {
                    assert(bytes.subrange(end as int, i + 1) =~= bytes.subrange(end as int, i as int).push(b));
                }
            }
            i += 1;
            proof {
                assert(bytes.subrange(end as int, end as int).len() == 0);
            }
        }
        proof {
            assert(head@ == complete(bytes));
            assert(tail@ =~= incomplete(bytes));
        }
        match utf8_text(head.as_slice()) {
            Some(text) => {
                self.gcode_buffer = tail;
                let chars = chars_of(text.as_str());
                let read = lines(chars.as_slice());
                Ok(strings_of(&read))
            },
            None => {
                self.gcode_buffer = Vec::new();
                Err(GcodeError::NotUtf8)
            },
        }
    }

    /// The extruder before a line, of which nothing was asked yet.
    pub open spec fn extruder(self) -> Extruder {
        Extruder {
            layer: self.curr_layer,
            filament_id: self.curr_filament_id,
            swaps: self.filament_swaps as int,
            actions: seq![],
        }
    }

    /// A line can be read in this state.
    pub open spec fn readable(self, line: Seq<char>) -> bool {
        self.curr_gcode_line < usize::MAX && can_step(self.extruder(), line)
    }

    /// The extruder after a line, with what the line asks of the extrusion account.
    pub open spec fn extruder_after(self, line: Seq<char>) -> Extruder {
        step(self.extruder(), line)
    }

    /// Reads a line: counts it, follows layer and filament, and gives what it asks of
    /// the extrusion account. A list of filament numbers that breaks off at a word
    /// that is none is an error; the numbers before that word are kept, and the reading
    /// is at an end: nothing waits for a next piece.
    pub fn process_line(&mut self, line: &str) -> (r: Result<Vec<GcodeAction>, GcodeError>)
        requires
            old(self).gcode_filament_id_to_slicer_filament_index.wf(),
            old(self).readable(line@),
        ensures
            final(self).gcode_filament_id_to_slicer_filament_index.wf(),
            final(self).ams_slots == old(self).ams_slots,
            r is Ok ==> final(self).gcode_buffer == old(self).gcode_buffer,
            r is Err ==> final(self).gcode_buffer@.len() == 0,
            final(self).curr_gcode_line == old(self).curr_gcode_line + 1,
            ({
                let e = old(self).extruder_after(line@);
                &&& final(self).curr_layer == e.layer
                &&& final(self).curr_filament_id == e.filament_id
                &&& final(self).filament_swaps == e.swaps
                &&& r is Ok ==> action_views(r->Ok_0@) == e.actions
            }),
            ({
                let words = split_on(behind(line@, "; filament: "@), ',');
                let numbered = kind_of(line@) == LineKind::FilamentIds;
                let before = old(self).gcode_filament_id_to_slicer_filament_index@;
                let after = final(self).gcode_filament_id_to_slicer_filament_index@;
                &&& after == (if numbered {
                    indexed(before, words, good_ids(words))
                } else {
                    before
                })
                &&& r is Err <==> numbered && good_ids(words) < words.len()
                &&& line@.len() > 0 && line@[0] == 'G' ==> r is Ok && final(self).gcode_buffer == old(self).gcode_buffer
                &&& r is Err ==> r->Err_0 == GcodeError::FilamentIds
            }),
    {
        self.curr_gcode_line = self.curr_gcode_line + 1;
        proof {
            lines_are_told_by_their_beginning(line@);
        }
        let chars = chars_of(line);
        let kind = classify(chars.as_slice());
        match kind {
            LineKind::LayerChange => {
                let action = self.store_curr_extrusion_info();
                let mut actions: Vec<GcodeAction> = Vec::new();
                actions.push(action);
                proof {
                    assert(action_views(actions@) =~= old(self).extruder_after(line@).actions);
                }
                Ok(actions)
            },
            LineKind::FilamentChange => {
                let words = split(chars.as_slice(), ' ');
                Ok(self.select_filaments(&words))
            },
            LineKind::PullBack => Ok(lengths_of(chars.as_slice(), true)),
            LineKind::Move => Ok(lengths_of(chars.as_slice(), false)),
            LineKind::TotalLayers => {
                let rest = rest_behind(chars.as_slice(), "; total layer number: ");
                let mut actions: Vec<GcodeAction> = Vec::new();
                if let Some(n) = parse_unsigned(rest.as_slice(), usize::MAX as u64) {
                    actions.push(GcodeAction::Reserve { entries: n as usize });
                }
                proof {
                    assert(action_views(actions@) =~= old(self).extruder_after(line@).actions);
                }
                Ok(actions)
            },
            LineKind::Density => {
                let rest = rest_behind(chars.as_slice(), "; filament_density: ");
                Ok(values_of(rest.as_slice(), true))
            },
            LineKind::Diameter => {
                let rest = rest_behind(chars.as_slice(), "; filament_diameter: ");
                Ok(values_of(rest.as_slice(), false))
            },
            LineKind::FilamentIds => {
                let rest = rest_behind(chars.as_slice(), "; filament: ");
                let words = split(rest.as_slice(), ',');
                let actions: Vec<GcodeAction> = Vec::new();
                proof {
                    assert(action_views(actions@) =~= old(self).extruder_after(line@).actions);
                }
                if self.number_filaments(&words) {
                    Ok(actions)
                } else {
                    self.gcode_buffer = Vec::new();
                    Err(GcodeError::FilamentIds)
                }
            },
            LineKind::Other => {
                let actions: Vec<GcodeAction> = Vec::new();
                proof {
                    assert(action_views(actions@) =~= old(self).extruder_after(line@).actions);
                }
                Ok(actions)
            },
        }
    }

    /// Whether a line can be read in this state.
    pub fn can_read(&self, line: &str) -> (r: bool)
        ensures
            r == self.readable(line@),
    {
        if self.curr_gcode_line == usize::MAX {
            return false;
        }
        let chars = chars_of(line);
        match classify(chars.as_slice()) {
            LineKind::LayerChange => self.curr_filament_id.is_some() && self.curr_layer < i32::MAX,
            LineKind::FilamentChange => {
                let words = split(chars.as_slice(), ' ');
                all_selections_are_numbers(&words) && (self.filament_swaps as i128) + (words.len() as i128) <= (
                i32::MAX as i128)
            },
            LineKind::FilamentIds => {
                let rest = rest_behind(chars.as_slice(), "; filament: ");
                let words = split(rest.as_slice(), ',');
                no_number_is_zero(&words)
            },
            _ => true,
        }
    }

    fn store_curr_extrusion_info(&mut self) -> (r: GcodeAction)
        requires
            old(self).curr_filament_id is Some,
            old(self).curr_layer < i32::MAX,
        ensures
            r == (GcodeAction::CloseEntry {
                layer: old(self).curr_layer,
                filament_id: old(self).curr_filament_id->0,
            }),
            *final(self) == (GcodeFilamentCalc { curr_layer: (old(self).curr_layer + 1) as i32, ..*old(self) }),
    {
        let layer = self.curr_layer;
        let filament_id = match self.curr_filament_id {
            Some(id) => id,
            None => 0,
        };
        self.curr_layer = self.curr_layer + 1;
        GcodeAction::CloseEntry { layer, filament_id }
    }

    /// The end of the file: the last layer ends too.
    pub fn done(&mut self) -> (r: GcodeAction)
        requires
            old(self).curr_filament_id is Some,
            old(self).curr_layer < i32::MAX,
        ensures
            r == (GcodeAction::CloseEntry {
                layer: old(self).curr_layer,
                filament_id: old(self).curr_filament_id->0,
            }),
            *final(self) == (GcodeFilamentCalc { curr_layer: (old(self).curr_layer + 1) as i32, ..*old(self) }),
    {
        self.store_curr_extrusion_info()
    }

    fn select_filaments(&mut self, words: &Vec<Vec<char>>) -> (actions: Vec<GcodeAction>)
        requires
            selections_are_numbers(views(words@)),
            old(self).filament_swaps + words@.len() <= i32::MAX,
        ensures
            ({
                let e = select_all(old(self).extruder(), selections(views(words@)));
                &&& action_views(actions@) == e.actions
                &&& e.layer == old(self).curr_layer
                &&& *final(self) == (GcodeFilamentCalc {
                    curr_filament_id: e.filament_id,
                    filament_swaps: e.swaps as i32,
                    ..*old(self)
                })
                &&& final(self).filament_swaps == e.swaps
            }),
    {
        let mut actions: Vec<GcodeAction> = Vec::new();
        let mut i: usize = 0;
        let ghost all = views(words@);
        let ghost mut e = old(self).extruder();
        proof {
            assert(action_views(actions@) =~= e.actions);
            assert(selections(all.take(0)).len() == 0);
        }
        while i < words.len()
            invariant
                i <= words@.len(),
                all == views(words@),
                selections_are_numbers(all),
                old(self).filament_swaps + words@.len() <= i32::MAX,
                e == select_all(old(self).extruder(), selections(all.take(i as int))),
                action_views(actions@) == e.actions,
                e.layer == old(self).curr_layer,
                e.swaps <= old(self).filament_swaps + i,
                e.swaps >= old(self).filament_swaps,
                *self == (GcodeFilamentCalc {
                    curr_filament_id: e.filament_id,
                    filament_swaps: e.swaps as i32,
                    ..*old(self)
                }),
            decreases words@.len() - i,
        {
            let word = &words[i];
            proof {
                assert(all.take(i + 1).drop_last() =~= all.take(i as int));
                assert(all[i as int] == word@);
            }
            if word.len() > 0 && word[0] == 'S' && word[word.len() - 1] == 'A' {
                proof {
                    assert(word@.len() >= 2);
                }
                let number = cut(word.as_slice(), 1, word.len() - 1);
                proof {
                    assert(selects(all[i as int]));
                }
                if let Some(filament_id) = parse_i32(number.as_slice()) {
                    let ghost before = actions@;
                    actions.push(
                        GcodeAction::CloseEntryIfExtruded { layer: self.curr_layer, loaded: self.curr_filament_id },
                    );
                    let ghost closed = actions@;
                    proof {
                        assert(action_views(closed) =~= action_views(before).push(closed.last()@));
                    }
                    if self.curr_filament_id != Some(filament_id) {
                        self.filament_swaps = self.filament_swaps + 1;
                        actions.push(GcodeAction::ResetPosition);
                        proof {
                            assert(action_views(actions@) =~= action_views(closed).push(ActionView::ResetPosition));
                        }
                    }
                    self.curr_filament_id = Some(filament_id);
                    proof {
                        let ids = selections(all.take(i + 1));
                        assert(ids.drop_last() =~= selections(all.take(i as int)));
                        assert(ids.last() == filament_id);
                        e = select(e, filament_id);
                    }
                }
            }
            i += 1;
        }
        proof {
            assert(all.take(all.len() as int) =~= all);
        }
        actions
    }

    fn number_filaments(&mut self, words: &Vec<Vec<char>>) -> (all_good: bool)
        requires
            old(self).gcode_filament_id_to_slicer_filament_index.wf(),
            ids_count_from_one(views(words@)),
        ensures
            final(self).gcode_filament_id_to_slicer_filament_index.wf(),
            final(self).gcode_filament_id_to_slicer_filament_index@ == indexed(
                old(self).gcode_filament_id_to_slicer_filament_index@,
                views(words@),
                good_ids(views(words@)),
            ),
            all_good == (good_ids(views(words@)) == words@.len()),
            good_ids(views(words@)) <= words@.len(),
            *final(self) == (GcodeFilamentCalc {
                gcode_filament_id_to_slicer_filament_index: final(self).gcode_filament_id_to_slicer_filament_index,
                ..*old(self)
            }),
    {
        let ghost all = views(words@);
        let mut i: usize = 0;
        while i < words.len()
            invariant
                i <= words@.len(),
                all == views(words@),
                ids_count_from_one(all),
                forall|j: int| 0 <= j < i ==> parsed(#[trigger] all[j], 0, 255) is Some,
                self.gcode_filament_id_to_slicer_filament_index.wf(),
                self.gcode_filament_id_to_slicer_filament_index@ == indexed(
                    old(self).gcode_filament_id_to_slicer_filament_index@,
                    all,
                    i as int,
                ),
                *self == (GcodeFilamentCalc {
                    gcode_filament_id_to_slicer_filament_index: self.gcode_filament_id_to_slicer_filament_index,
                    ..*old(self)
                }),
            decreases words@.len() - i,
        {
            proof {
                assert(all[i as int] == words@[i as int]@);
                lemma_good_ids(all, i as int);
            }
            match parse_unsigned(words[i].as_slice(), 255) {
                Some(n) => {
                    proof {
                        assert forall|j: int| 0 <= j < i + 1 implies parsed(#[trigger] all[j], 0, 255) is Some by {}
                        lemma_good_ids(all, i + 1);
                        assert(parsed(all[i as int], 0, 255) != Some(0int));
                    }
                    let number = (n as i32) - 1;
                    self.gcode_filament_id_to_slicer_filament_index.insert(number, i);
                },
                None => {
                    return false;
                },
            }
            i += 1;
        }
        proof {
            lemma_good_ids(all, i as int);
        }
        true
    }
}

fn rest_behind(chars: &[char], prefix: &str) -> (r: Vec<char>)
    requires
        starts_with(chars@, prefix@),
    ensures
        r@ == behind(chars@, prefix@),
{
    let p = chars_of(prefix);
    cut(chars, p.len(), chars.len())
}

fn lengths_of(line: &[char], pull_back: bool) -> (actions: Vec<GcodeAction>)
    ensures
        pull_back ==> action_views(actions@) == lengths(split_on(line@, ' ')).map_values(
            |length: Seq<char>| ActionView::PullBack { length },
        ),
        !pull_back ==> action_views(actions@) == lengths(split_on(line@, ' ')).map_values(
            |length: Seq<char>| ActionView::Extrude { length },
        ),
{
    let words = split(line, ' ');
    let ghost all = views(words@);
    let ghost f = |length: Seq<char>|
        if pull_back {
            ActionView::PullBack { length }
        } else {
            ActionView::Extrude { length }
        };
    let mut actions: Vec<GcodeAction> = Vec::new();
    let mut i: usize = 0;
    proof {
        assert(lengths(all.take(0)).len() == 0);
        assert(action_views(actions@) =~= lengths(all.take(0)).map_values(f));
    }
    while i < words.len()
        invariant
            i <= words@.len(),
            all == views(words@),
            f == (|length: Seq<char>|
                if pull_back {
                    ActionView::PullBack { length }
                } else {
                    ActionView::Extrude { length }
                }),
            action_views(actions@) == lengths(all.take(i as int)).map_values(f),
        decreases words@.len() - i,
    {
        let word = &words[i];
        proof {
            assert(all.take(i + 1).drop_last() =~= all.take(i as int));
            assert(all[i as int] == word@);
        }
        if word.len() > 0 && word[0] == 'E' {
            let rest = cut(word.as_slice(), 1, word.len());
            let length = text_of(rest.as_slice());
            proof {
                assert(word@.skip(1) =~= rest@);
            }
            let ghost before = actions@;
            if pull_back {
                actions.push(GcodeAction::PullBack { length });
            } else {
                actions.push(GcodeAction::Extrude { length });
            }
            proof {
                assert(action_views(actions@) =~= action_views(before).push(f(rest@)));
                assert(lengths(all.take(i + 1)).map_values(f) =~= lengths(all.take(i as int)).map_values(f).push(
                    f(rest@),
                ));
            }
        }
        i += 1;
    }
    proof {
        assert(all.take(all.len() as int) =~= all);
        if pull_back {
            assert(action_views(actions@) =~= lengths(all).map_values(
                |length: Seq<char>| ActionView::PullBack { length },
            ));
        } else {
            assert(action_views(actions@) =~= lengths(all).map_values(
                |length: Seq<char>| ActionView::Extrude { length },
            ));
        }
    }
    actions
}

fn values_of(list: &[char], density: bool) -> (actions: Vec<GcodeAction>)
    ensures
        density ==> action_views(actions@) == split_on(list@, ',').map_values(
            |value: Seq<char>| ActionView::Density { value },
        ),
        !density ==> action_views(actions@) == split_on(list@, ',').map_values(
            |value: Seq<char>| ActionView::Diameter { value },
        ),
{
    let words = split(list, ',');
    let ghost all = views(words@);
    let mut actions: Vec<GcodeAction> = Vec::new();
    let mut i: usize = 0;
    while i < words.len()
        invariant
            i <= words@.len(),
            all == views(words@),
            actions@.len() == i,
            forall|j: int|
                0 <= j < i ==> (#[trigger] actions@[j])@ == (if density {
                    ActionView::Density { value: all[j] }
                } else {
                    ActionView::Diameter { value: all[j] }
                }),
        decreases words@.len() - i,
    {
        let value = text_of(words[i].as_slice());
        proof {
            assert(all[i as int] == words@[i as int]@);
        }
        if density {
            actions.push(GcodeAction::Density { value });
        } else {
            actions.push(GcodeAction::Diameter { value });
        }
        i += 1;
    }
    proof {
        if density {
            assert(action_views(actions@) =~= all.map_values(|value: Seq<char>| ActionView::Density { value }));
        } else {
            assert(action_views(actions@) =~= all.map_values(|value: Seq<char>| ActionView::Diameter { value }));
        }
    }
    actions
}

fn all_selections_are_numbers(words: &Vec<Vec<char>>) -> (r: bool)
    ensures
        r == selections_are_numbers(views(words@)),
{
    let ghost all = views(words@);
    let mut i: usize = 0;
    while i < words.len()
        invariant
            i <= words@.len(),
            all == views(words@),
            forall|j: int| 0 <= j < i && selects(#[trigger] all[j]) ==> selected(all[j]) is Some,
        decreases words@.len() - i,
    {
        let word = &words[i];
        proof {
            assert(all[i as int] == word@);
        }
        if word.len() > 0 && word[0] == 'S' && word[word.len() - 1] == 'A' {
            let number = cut(word.as_slice(), 1, word.len() - 1);
            if parse_i32(number.as_slice()).is_none() {
                proof {
                    assert(selects(all[i as int]) && selected(all[i as int]) is None);
                }
                return false;
            }
        }
        i += 1;
    }
    true
}

fn no_number_is_zero(words: &Vec<Vec<char>>) -> (r: bool)
    ensures
        r == ids_count_from_one(views(words@)),
{
    let ghost all = views(words@);
    let mut i: usize = 0;
    while i < words.len()
        invariant
            i <= words@.len(),
            all == views(words@),
            forall|j: int| 0 <= j < i ==> parsed(#[trigger] all[j], 0, 255) is Some,
            forall|j: int| 0 <= j < i ==> parsed(#[trigger] all[j], 0, 255) != Some(0int),
        decreases words@.len() - i,
    {
        proof {
            assert(all[i as int] == words@[i as int]@);
            lemma_good_ids(all, i as int);
        }
        match parse_unsigned(words[i].as_slice(), 255) {
            Some(n) => {
                if n == 0 {
                    proof {
                        lemma_good_ids(all, i + 1);
                        assert(parsed(all[i as int], 0, 255) == Some(0int));
                    }
                    return false;
                }
            },
            None => {
                return true;
            },
        }
        i += 1;
    }
    proof {
        lemma_good_ids(all, i as int);
    }
    true
}

proof fn lemma_lines_join(s: Seq<char>, t: Seq<char>)
    requires
        s.len() > 0 ==> s.last() == '\n',
    ensures
        lines_of(s + t) == lines_of(s) + lines_of(t),
    decreases s.len(),
{
    if s.len() == 0 {
        assert(s + t =~= t);
        assert(lines_of(s) + lines_of(t) =~= lines_of(t));
    } else {
        lemma_position(s, '\n');
        let i = position(s, '\n');
        assert(i < s.len());
        assert((s + t)[i] == '\n');
        assert forall|j: int| 0 <= j < i implies (s + t)[j] != '\n' by {
            assert((s + t)[j] == s[j]);
        }
        lemma_position_is(s + t, '\n', i);
        assert((s + t).take(i) =~= s.take(i));
        assert((s + t).skip(i + 1) =~= s.skip(i + 1) + t);
        lemma_lines_join(s.skip(i + 1), t);
        let head = seq![without_cr(s.take(i))];
        assert(head + (lines_of(s.skip(i + 1)) + lines_of(t)) =~= (head + lines_of(s.skip(i + 1))) + lines_of(t));
    }
}

proof fn lemma_line_feed(x: Seq<u8>, y: Seq<u8>)
    requires
        x.len() > 0,
        x.last() == 10,
    ensures
        valid_utf8(x + y) == (valid_utf8(x) && valid_utf8(y)),
        valid_utf8(x + y) ==> decode_utf8(x + y) == decode_utf8(x) + decode_utf8(y),
        valid_utf8(x) ==> decode_utf8(x).len() > 0 && decode_utf8(x).last() == '\n',
{
    let w = x + y;
    let n = x.len() as int;
    let feed: Seq<u8> = seq![10u8];
    reveal_with_fuel(valid_utf8, 2);
    reveal_with_fuel(decode_utf8, 2);
    assert(10u8 & 0x7f == 10u8) by (bit_vector);
    assert(pop_first_scalar(feed).len() == 0);
    assert(valid_utf8(feed));
    assert(decode_utf8(feed) =~= seq!['\n']);
    if valid_utf8(x) {
        is_char_boundary_iff_not_is_continuation_byte(x, n - 1);
        decode_utf8_split(x, n - 1);
        assert(x.subrange(n - 1, n) =~= feed);
        assert(decode_utf8(x).last() == '\n');
    }
    if valid_utf8(x) && valid_utf8(y) {
        valid_utf8_concat(x, y);
    }
    if valid_utf8(w) {
        assert(w[n - 1] == 10);
        is_char_boundary_iff_not_is_continuation_byte(w, n - 1);
        valid_utf8_split(w, n - 1);
        let tail = w.subrange(n - 1, w.len() as int);
        assert(tail[0] == 10);
        assert(pop_first_scalar(tail) =~= y);
        assert(valid_utf8(y));
        valid_utf8_concat(w.subrange(0, n - 1), feed);
        assert(w.subrange(0, n - 1) + feed =~= x);
        if y.len() > 0 {
            assert(w[n] == y[0]);
            is_char_boundary_iff_not_is_continuation_byte(w, n);
        } else {
            is_char_boundary_start_end_of_seq(w);
        }
        decode_utf8_split(w, n);
        assert(w.subrange(0, n) =~= x);
        assert(w.subrange(n, w.len() as int) =~= y);
    }
}

/// It does not matter where the file is cut into pieces: `a` and then `b` give the
/// same lines, leave the same rest and are refused just as `a` and `b` in one piece.
pub proof fn pieces_read_as_one(a: Seq<u8>, b: Seq<u8>)
    ensures
        incomplete(incomplete(a) + b) == incomplete(a + b),
        valid_utf8(complete(a + b)) == (valid_utf8(complete(a)) && valid_utf8(complete(incomplete(a) + b))),
        valid_utf8(complete(a + b)) ==> lines_of(decode_utf8(complete(a + b))) == lines_of(decode_utf8(complete(a)))
            + lines_of(decode_utf8(complete(incomplete(a) + b))),
{
    lemma_line_end(a);
    let k = line_end(a);
    let c = incomplete(a) + b;
    lemma_line_end(c);
    let m = line_end(c);
    assert(a + b =~= a.take(k) + c);
    if m > 0 {
        assert((a + b)[k + m - 1] == c[m - 1]);
    } else if k > 0 {
        assert((a + b)[k - 1] == a[k - 1]);
    }
    assert forall|i: int| k + m <= i < (a + b).len() implies (a + b)[i] != 10 by {
        assert((a + b)[i] == c[i - k]);
    }
    lemma_line_end_is(a + b, k + m);
    let x = complete(a);
    let y = complete(c);
    assert(complete(a + b) =~= x + y);
    assert(incomplete(a + b) =~= incomplete(c));
    if x.len() == 0 {
        reveal_with_fuel(valid_utf8, 1);
        reveal_with_fuel(decode_utf8, 1);
        assert(x + y =~= y);
        assert(decode_utf8(x).len() == 0);
        assert(lines_of(decode_utf8(x)) + lines_of(decode_utf8(y)) =~= lines_of(decode_utf8(y)));
    } else {
        lemma_line_feed(x, y);
        if valid_utf8(x + y) {
            lemma_lines_join(decode_utf8(x), decode_utf8(y));
        }
    }
}

/// What stands behind the last line feed of a text is not read, whatever it is.
pub proof fn unfinished_line_is_not_read(text: Seq<u8>, tail: Seq<u8>)
    requires
        forall|i: int| 0 <= i < tail.len() ==> tail[i] != 10,
    ensures
        complete(text + tail) == complete(text),
        incomplete(text + tail) == incomplete(text) + tail,
{
    lemma_line_end(text);
    let k = line_end(text);
    let whole = text + tail;
    assert forall|i: int| k <= i < whole.len() implies whole[i] != 10 by {
        if i >= text.len() {
            assert(whole[i] == tail[i - text.len()]);
        }
    }
    lemma_line_end_is(whole, k);
    assert(complete(whole) =~= complete(text));
    assert(incomplete(whole) =~= incomplete(text) + tail);
}

/// Lines are read one after another, and what each asks of the extrusion account comes
/// behind what those before it ask.
pub open spec fn read_lines(e: Extruder, lines: Seq<Seq<char>>) -> Extruder
    decreases lines.len(),
{
    if lines.len() == 0 {
        e
    } else {
        let before = read_lines(e, lines.drop_last());
        let after = step(Extruder { actions: seq![], ..before }, lines.last());
        Extruder { actions: before.actions + after.actions, ..after }
    }
}

/// Each of the lines can be read once those before it were.
pub open spec fn can_read_lines(e: Extruder, lines: Seq<Seq<char>>) -> bool
    decreases lines.len(),
{
    lines.len() > 0 ==> can_read_lines(e, lines.drop_last()) && can_step(
        read_lines(e, lines.drop_last()),
        lines.last(),
    )
}

/// How many of the lines change the layer.
pub open spec fn layer_changes(lines: Seq<Seq<char>>) -> nat
    decreases lines.len(),
{
    if lines.len() == 0 {
        0
    } else if kind_of(lines.last()) == LineKind::LayerChange {
        layer_changes(lines.drop_last()) + 1
    } else {
        layer_changes(lines.drop_last())
    }
}

/// The layers that are ended, in order.
pub open spec fn ended_layers(actions: Seq<ActionView>) -> Seq<i32>
    decreases actions.len(),
{
    if actions.len() == 0 {
        seq![]
    } else {
        match actions.last() {
            ActionView::CloseEntry { layer, .. } => ended_layers(actions.drop_last()).push(layer),
            _ => ended_layers(actions.drop_last()),
        }
    }
}

/// The layers of the entries that are made, in order. Whether the i-th action finds
/// that something was extruded, `extruded(i)` tells.
pub open spec fn entry_layers(actions: Seq<ActionView>, extruded: spec_fn(int) -> bool) -> Seq<i32>
    decreases actions.len(),
{
    if actions.len() == 0 {
        seq![]
    } else {
        let before = entry_layers(actions.drop_last(), extruded);
        match actions.last() {
            ActionView::CloseEntry { layer, .. } => before.push(layer),
            ActionView::CloseEntryIfExtruded { layer, .. } => if extruded(actions.len() - 1) {
                before.push(layer)
            } else {
                before
            },
            _ => before,
        }
    }
}

/// The layers from zero up to but without `n`.
pub open spec fn layers_below(n: nat) -> Seq<i32> {
    Seq::new(n, |i: int| i as i32)
}

/// The layers of entries run from zero up to `top` and never go down, and each below
/// `top` has an entry.
pub open spec fn layers_rise_to(entries: Seq<i32>, top: int) -> bool {
    &&& forall|i: int| 0 <= i < entries.len() ==> 0 <= #[trigger] entries[i] <= top
    &&& forall|i: int, j: int| 0 <= i <= j < entries.len() ==> #[trigger] entries[i] <= #[trigger] entries[j]
    &&& forall|layer: i32| 0 <= layer < top ==> #[trigger] entries.contains(layer)
}

/// An action that ends no layer, and that makes no entry but for `layer`.
spec fn stays_on(action: ActionView, layer: i32) -> bool {
    match action {
        ActionView::CloseEntry { .. } => false,
        ActionView::CloseEntryIfExtruded { layer: l, .. } => l == layer,
        _ => true,
    }
}

proof fn lemma_entry_added(entries: Seq<i32>, layer: i32)
    requires
        layer >= 0,
        layers_rise_to(entries, layer as int),
    ensures
        layers_rise_to(entries.push(layer), layer as int),
        layers_rise_to(entries.push(layer), layer + 1),
{
    let now = entries.push(layer);
    assert forall|l: i32| 0 <= l < layer + 1 implies #[trigger] now.contains(l) by {
        if l < layer {
            assert(entries.contains(l));
            let i = choose|i: int| 0 <= i < entries.len() && entries[i] == l;
            assert(now[i] == l);
        } else {
            assert(now[entries.len() as int] == l);
        }
    }
}

proof fn lemma_layer_goes_on(
    actions: Seq<ActionView>,
    more: Seq<ActionView>,
    layer: i32,
    extruded: spec_fn(int) -> bool,
)
    requires
        layer >= 0,
        layers_rise_to(entry_layers(actions, extruded), layer as int),
        forall|i: int| 0 <= i < more.len() ==> stays_on(#[trigger] more[i], layer),
    ensures
        layers_rise_to(entry_layers(actions + more, extruded), layer as int),
        ended_layers(actions + more) == ended_layers(actions),
    decreases more.len(),
{
    if more.len() == 0 {
        assert(actions + more =~= actions);
    } else {
        let less = more.drop_last();
        assert forall|i: int| 0 <= i < less.len() implies stays_on(#[trigger] less[i], layer) by {
            assert(less[i] == more[i]);
        }
        lemma_layer_goes_on(actions, less, layer, extruded);
        assert((actions + more).drop_last() =~= actions + less);
        assert((actions + more).last() == more.last());
        assert(stays_on(more[more.len() - 1], layer));
        lemma_entry_added(entry_layers(actions + less, extruded), layer);
    }
}

proof fn lemma_selecting_stays(e: Extruder, ids: Seq<i32>)
    requires
        e.actions.len() == 0,
    ensures
        select_all(e, ids).layer == e.layer,
        forall|i: int|
            0 <= i < select_all(e, ids).actions.len() ==> stays_on(
                #[trigger] select_all(e, ids).actions[i],
                e.layer,
            ),
    decreases ids.len(),
{
    if ids.len() > 0 {
        lemma_selecting_stays(e, ids.drop_last());
    }
}

proof fn lemma_step_stays(e: Extruder, line: Seq<char>)
    requires
        e.actions.len() == 0,
        kind_of(line) != LineKind::LayerChange,
    ensures
        step(e, line).layer == e.layer,
        forall|i: int| 0 <= i < step(e, line).actions.len() ==> stays_on(#[trigger] step(e, line).actions[i], e.layer),
{
    if kind_of(line) == LineKind::FilamentChange {
        lemma_selecting_stays(e, selections(split_on(line, ' ')));
    }
}

proof fn lemma_layers_so_far(lines: Seq<Seq<char>>, extruded: spec_fn(int) -> bool)
    requires
        can_read_lines(at_rest(), lines),
    ensures
        ({
            let e = read_lines(at_rest(), lines);
            &&& e.layer == layer_changes(lines)
            &&& ended_layers(e.actions) == layers_below(layer_changes(lines))
            &&& layers_rise_to(entry_layers(e.actions, extruded), e.layer as int)
        }),
    decreases lines.len(),
{
    if lines.len() == 0 {
        assert(ended_layers(seq![]) =~= layers_below(0));
    } else {
        lemma_layers_so_far(lines.drop_last(), extruded);
        let before = read_lines(at_rest(), lines.drop_last());
        let fresh = Extruder { actions: seq![], ..before };
        let after = step(fresh, lines.last());
        if kind_of(lines.last()) == LineKind::LayerChange {
            let all = before.actions + after.actions;
            assert(all =~= before.actions.push(after.actions[0]));
            assert(all.drop_last() =~= before.actions);
            lemma_entry_added(entry_layers(before.actions, extruded), before.layer);
            assert(ended_layers(all) =~= layers_below(layer_changes(lines)));
        } else {
            lemma_step_stays(fresh, lines.last());
            lemma_layer_goes_on(before.actions, after.actions, before.layer, extruded);
        }
    }
}

/// Over a whole gcode text and its end, each layer from zero up to the number of layer
/// changes is ended once, in order. Whatever is found extruded at changes of filament,
/// the entries that are made never go down by layer, each of those layers and no other
/// has one, and the last is for the last layer; the end of the file adds that one
/// alone.
pub proof fn each_layer_is_ended_once(lines: Seq<Seq<char>>, extruded: spec_fn(int) -> bool)
    requires
        can_read_lines(at_rest(), lines),
        read_lines(at_rest(), lines).filament_id is Some,
    ensures
        ({
            let n = layer_changes(lines);
            let e = read_lines(at_rest(), lines);
            let end = ActionView::CloseEntry { layer: e.layer, filament_id: e.filament_id->0 };
            let entries = entry_layers(e.actions.push(end), extruded);
            &&& e.layer == n
            &&& ended_layers(e.actions.push(end)) == layers_below(n + 1)
            &&& entries == entry_layers(e.actions, extruded).push(n as i32)
            &&& layers_rise_to(entries, n as int)
            &&& entries.contains(n as i32)
            &&& entries.last() == n
        }),
{
    lemma_layers_so_far(lines, extruded);
    let n = layer_changes(lines);
    let e = read_lines(at_rest(), lines);
    let end = ActionView::CloseEntry { layer: e.layer, filament_id: e.filament_id->0 };
    assert(e.actions.push(end).drop_last() =~= e.actions);
    lemma_entry_added(entry_layers(e.actions, extruded), e.layer);
    let entries = entry_layers(e.actions.push(end), extruded);
    assert(entries[entries.len() - 1] == n as i32);
    assert(ended_layers(e.actions.push(end)) =~= layers_below(n + 1));
}

/// What a line is goes by the characters that it begins with, and no line is two things.
pub proof fn lines_are_told_by_their_beginning(line: Seq<char>)
    ensures
        kind_of(line) == LineKind::LayerChange <==> starts_with(line, "; CHANGE_LAYER"@),
        kind_of(line) == LineKind::FilamentChange <==> starts_with(line, "M620 S"@),
        kind_of(line) == LineKind::PullBack <==> starts_with(line, "M620.11"@),
        kind_of(line) == LineKind::Move <==> line.len() > 0 && line[0] == 'G',
        kind_of(line) == LineKind::TotalLayers <==> starts_with(line, "; total layer number: "@),
        kind_of(line) == LineKind::Density <==> starts_with(line, "; filament_density: "@),
        kind_of(line) == LineKind::Diameter <==> starts_with(line, "; filament_diameter: "@),
        kind_of(line) == LineKind::FilamentIds <==> starts_with(line, "; filament: "@),
{
    reveal_strlit("; CHANGE_LAYER");
    reveal_strlit("M620 S");
    reveal_strlit("M620.11");
    reveal_strlit("G");
    reveal_strlit("; total layer number: ");
    reveal_strlit("; filament_density: ");
    reveal_strlit("; filament_diameter: ");
    reveal_strlit("; filament: ");
    beginning_goes_by_characters(line, "; CHANGE_LAYER"@);
    beginning_goes_by_characters(line, "M620 S"@);
    beginning_goes_by_characters(line, "M620.11"@);
    beginning_goes_by_characters(line, "G"@);
    beginning_goes_by_characters(line, "; total layer number: "@);
    beginning_goes_by_characters(line, "; filament_density: "@);
    beginning_goes_by_characters(line, "; filament_diameter: "@);
    beginning_goes_by_characters(line, "; filament: "@);
    assert(starts_with(line, "; CHANGE_LAYER"@) ==> line[0] == ';' && line[2] == 'C');
    assert(starts_with(line, "M620 S"@) ==> line[0] == 'M' && line[4] == ' ');
    assert(starts_with(line, "M620.11"@) ==> line[0] == 'M' && line[4] == '.');
    assert(starts_with(line, "; total layer number: "@) ==> line[0] == ';' && line[2] == 't');
    assert(starts_with(line, "; filament_density: "@) ==> line[0] == ';' && line[2] == 'f' && line[10] == '_' && line[12]
        == 'e');
    assert(starts_with(line, "; filament_diameter: "@) ==> line[0] == ';' && line[2] == 'f' && line[10] == '_' && line[12]
        == 'i');
    assert(starts_with(line, "; filament: "@) ==> line[0] == ';' && line[2] == 'f' && line[10] == ':');
}

proof fn lemma_lengths(words: Seq<Seq<char>>) -> (at: Seq<int>)
    ensures
        lists_marked(at, Seq::new(words.len(), |i: int| words[i].len() > 0 && words[i][0] == 'E')),
        lengths(words).len() == at.len(),
        forall|i: int| 0 <= i < at.len() ==> #[trigger] lengths(words)[i] == words[at[i]].skip(1),
    decreases words.len(),
{
    let marks = Seq::new(words.len(), |i: int| words[i].len() > 0 && words[i][0] == 'E');
    if words.len() == 0 {
        assert(lists_marked(seq![], marks));
        seq![]
    } else {
        let less = words.drop_last();
        let before = lemma_lengths(less);
        let fewer = Seq::new(less.len(), |i: int| less[i].len() > 0 && less[i][0] == 'E');
        let last = words.last().len() > 0 && words.last()[0] == 'E';
        lemma_lists_marked(before, fewer, last);
        assert(fewer.push(last) =~= marks);
        if last {
            before.push(less.len() as int)
        } else {
            before
        }
    }
}

/// Every line that begins with `G`, whatever follows, extrudes the length of each of its
/// words `E..`, in their order, and does nothing else.
pub proof fn moves_extrude_what_they_say(e: Extruder, line: Seq<char>) -> (at: Seq<int>)
    requires
        line.len() > 0,
        line[0] == 'G',
    ensures
        can_step(e, line),
        kind_of(line) != LineKind::FilamentIds,
        ({
            let words = split_on(line, ' ');
            let after = step(e, line);
            &&& lists_marked(at, Seq::new(words.len(), |i: int| words[i].len() > 0 && words[i][0] == 'E'))
            &&& after.layer == e.layer
            &&& after.filament_id == e.filament_id
            &&& after.swaps == e.swaps
            &&& after.actions.len() == e.actions.len() + at.len()
            &&& after.actions.take(e.actions.len() as int) == e.actions
            &&& forall|i: int|
                0 <= i < at.len() ==> #[trigger] after.actions[e.actions.len() + i] == (ActionView::Extrude {
                    length: words[at[i]].skip(1),
                })
        }),
{
    lines_are_told_by_their_beginning(line);
    let words = split_on(line, ' ');
    let at = lemma_lengths(words);
    assert(step(e, line).actions.take(e.actions.len() as int) =~= e.actions);
    assert forall|i: int| 0 <= i < at.len() implies #[trigger] step(e, line).actions[e.actions.len() + i] == (
    ActionView::Extrude { length: words[at[i]].skip(1) }) by {
        assert(lengths(words)[i] == words[at[i]].skip(1));
    }
    at
}

/// Every line that begins with `M620.11` pulls back the length of each of its words `E..`,
/// in their order, and does nothing else.
pub proof fn pull_backs_take_what_they_say(e: Extruder, line: Seq<char>) -> (at: Seq<int>)
    requires
        starts_with(line, "M620.11"@),
    ensures
        can_step(e, line),
        ({
            let words = split_on(line, ' ');
            let after = step(e, line);
            &&& lists_marked(at, Seq::new(words.len(), |i: int| words[i].len() > 0 && words[i][0] == 'E'))
            &&& after.layer == e.layer
            &&& after.filament_id == e.filament_id
            &&& after.swaps == e.swaps
            &&& after.actions.len() == e.actions.len() + at.len()
            &&& after.actions.take(e.actions.len() as int) == e.actions
            &&& forall|i: int|
                0 <= i < at.len() ==> #[trigger] after.actions[e.actions.len() + i] == (ActionView::PullBack {
                    length: words[at[i]].skip(1),
                })
        }),
{
    lines_are_told_by_their_beginning(line);
    let words = split_on(line, ' ');
    let at = lemma_lengths(words);
    assert(step(e, line).actions.take(e.actions.len() as int) =~= e.actions);
    assert forall|i: int| 0 <= i < at.len() implies #[trigger] step(e, line).actions[e.actions.len() + i] == (
    ActionView::PullBack { length: words[at[i]].skip(1) }) by {
        assert(lengths(words)[i] == words[at[i]].skip(1));
    }
    at
}

/// A change of layer needs a loaded filament. It ends the layer for this filament, and
/// leads to the next layer; the filament stays.
pub proof fn layer_change_ends_the_layer(e: Extruder, line: Seq<char>)
    requires
        starts_with(line, "; CHANGE_LAYER"@),
        e.layer < i32::MAX,
    ensures
        can_step(e, line) <==> e.filament_id is Some,
        step(e, line).layer == e.layer + 1,
        step(e, line).filament_id == e.filament_id,
        step(e, line).swaps == e.swaps,
        step(e, line).actions.len() == e.actions.len() + 1,
        step(e, line).actions.drop_last() == e.actions,
        e.filament_id is Some ==> step(e, line).actions.last() == (ActionView::CloseEntry {
            layer: e.layer,
            filament_id: e.filament_id->0,
        }),
{
    lines_are_told_by_their_beginning(line);
    assert(step(e, line).actions.drop_last() =~= e.actions);
}

/// Selecting a filament enters what was extruded for the one before, on this layer. Only
/// another filament is a change, and starts at position zero.
pub proof fn only_another_filament_is_a_change(e: Extruder, filament_id: i32)
    ensures
        ({
            let after = select(e, filament_id);
            let closed = e.actions.push(ActionView::CloseEntryIfExtruded { layer: e.layer, loaded: e.filament_id });
            &&& after.layer == e.layer
            &&& after.filament_id == Some(filament_id)
            &&& e.filament_id == Some(filament_id) ==> after.swaps == e.swaps && after.actions == closed
            &&& e.filament_id != Some(filament_id) ==> after.swaps == e.swaps + 1 && after.actions == closed.push(
                ActionView::ResetPosition,
            )
        }),
{
}

/// Filaments are selected in the order of the words `S..A` of the line, each by the number
/// between the two letters: a line with one such word selects that filament, and one with
/// several goes on from what those before the last select.
pub proof fn filaments_are_selected_in_order(e: Extruder, line: Seq<char>)
    requires
        starts_with(line, "M620 S"@),
    ensures
        step(e, line) == select_all(e, selections(split_on(line, ' '))),
        forall|n: int|
            i32::MIN <= n <= i32::MAX ==> selects(seq!['S'] + #[trigger] int_text(n) + seq!['A']) && selected(
                seq!['S'] + int_text(n) + seq!['A'],
            ) == Some(n),
        forall|words: Seq<Seq<char>>, w: Seq<char>|
            (w.len() >= 2 && w[0] == 'S' && w.last() == 'A') ==> #[trigger] selections(words.push(w)) == selections(
                words,
            ).push(selected(w)->0 as i32),
        forall|words: Seq<Seq<char>>, w: Seq<char>|
            !(w.len() > 0 && w[0] == 'S' && w.last() == 'A') ==> #[trigger] selections(words.push(w)) == selections(words),
        forall|ids: Seq<i32>, id: i32|
            #[trigger] select_all(e, ids.push(id)) == select(select_all(e, ids), id),
        select_all(e, seq![]) == e,
{
    lines_are_told_by_their_beginning(line);
    assert forall|n: int| i32::MIN <= n <= i32::MAX implies selects(seq!['S'] + #[trigger] int_text(n) + seq!['A'])
        && selected(seq!['S'] + int_text(n) + seq!['A']) == Some(n) by {
        let w = seq!['S'] + int_text(n) + seq!['A'];
        assert(w.subrange(1, w.len() - 1) =~= int_text(n));
        number_reads_back(n);
        assert(w.last() == 'A');
    }
    assert forall|words: Seq<Seq<char>>, w: Seq<char>| (w.len() >= 2 && w[0] == 'S' && w.last() == 'A') implies
        #[trigger] selections(words.push(w)) == selections(words).push(selected(w)->0 as i32) by {
        assert(words.push(w).drop_last() =~= words);
    }
    assert forall|words: Seq<Seq<char>>, w: Seq<char>| !(w.len() > 0 && w[0] == 'S' && w.last() == 'A') implies
        #[trigger] selections(words.push(w)) == selections(words) by {
        assert(words.push(w).drop_last() =~= words);
    }
    assert forall|ids: Seq<i32>, id: i32| #[trigger] select_all(e, ids.push(id)) == select(select_all(e, ids), id) by {
        assert(ids.push(id).drop_last() =~= ids);
    }
}

/// A list of densities gives one for each piece between its commas, in order.
pub proof fn densities_are_listed(e: Extruder, line: Seq<char>)
    requires
        starts_with(line, "; filament_density: "@),
    ensures
        ({
            let values = split_on(line.skip(20), ',');
            let after = step(e, line);
            &&& can_step(e, line)
            &&& after == (Extruder { actions: after.actions, ..e })
            &&& after.actions.len() == e.actions.len() + values.len()
            &&& after.actions.take(e.actions.len() as int) == e.actions
            &&& forall|i: int|
                0 <= i < values.len() ==> #[trigger] after.actions[e.actions.len() + i] == (ActionView::Density {
                    value: values[i],
                })
        }),
{
    reveal_strlit("; filament_density: ");
    lines_are_told_by_their_beginning(line);
    assert(step(e, line).actions.take(e.actions.len() as int) =~= e.actions);
}

/// A list of diameters gives one for each piece between its commas, in order.
pub proof fn diameters_are_listed(e: Extruder, line: Seq<char>)
    requires
        starts_with(line, "; filament_diameter: "@),
    ensures
        ({
            let values = split_on(line.skip(21), ',');
            let after = step(e, line);
            &&& can_step(e, line)
            &&& after == (Extruder { actions: after.actions, ..e })
            &&& after.actions.len() == e.actions.len() + values.len()
            &&& after.actions.take(e.actions.len() as int) == e.actions
            &&& forall|i: int|
                0 <= i < values.len() ==> #[trigger] after.actions[e.actions.len() + i] == (ActionView::Diameter {
                    value: values[i],
                })
        }),
{
    reveal_strlit("; filament_diameter: ");
    lines_are_told_by_their_beginning(line);
    assert(step(e, line).actions.take(e.actions.len() as int) =~= e.actions);
}

/// The number of layers, where it is one, tells how many entries there will be.
pub proof fn layers_are_announced(e: Extruder, line: Seq<char>, n: usize)
    requires
        starts_with(line, "; total layer number: "@),
    ensures
        line.skip(22) == int_text(n as int) ==> step(e, line) == (Extruder {
            actions: e.actions.push(ActionView::Reserve { entries: n }),
            ..e
        }),
        parsed(line.skip(22), 0, usize::MAX as int) is None ==> step(e, line) == e,
{
    reveal_strlit("; total layer number: ");
    lines_are_told_by_their_beginning(line);
    number_reads_back(n as int);
}

/// A line that is none of these, or that numbers the filaments, asks nothing of the account
/// and changes nothing in the extruder.
pub proof fn other_lines_ask_nothing(e: Extruder, line: Seq<char>)
    requires
        !starts_with(line, "; CHANGE_LAYER"@),
        !starts_with(line, "M620 S"@),
        !starts_with(line, "M620.11"@),
        line.len() == 0 || line[0] != 'G',
        !starts_with(line, "; total layer number: "@),
        !starts_with(line, "; filament_density: "@),
        !starts_with(line, "; filament_diameter: "@),
    ensures
        step(e, line) == e,
{
    lines_are_told_by_their_beginning(line);
}

/// A list of filament numbers gives a filament, counted from zero, the last place where
/// its number stands, and leaves those alone that it does not name.
pub proof fn filaments_are_numbered_by_their_place(
    m: Map<i32, usize>,
    words: Seq<Seq<char>>,
    n: int,
    i: int,
    number: i32,
)
    requires
        -1 <= i < n <= words.len() <= usize::MAX,
        forall|j: int| 0 <= j < n ==> parsed(#[trigger] words[j], 0, 255) is Some,
        i >= 0 ==> parsed(words[i], 0, 255) == Some(number + 1),
        forall|j: int| i < j < n ==> parsed(#[trigger] words[j], 0, 255) != Some(number + 1),
    ensures
        i >= 0 ==> indexed(m, words, n).contains_key(number) && indexed(m, words, n)[number] == i,
        i == -1 ==> indexed(m, words, n).contains_key(number) == m.contains_key(number),
        i == -1 && m.contains_key(number) ==> indexed(m, words, n)[number] == m[number],
    decreases n,
{
    if n > 0 {
        assert(parsed(words[n - 1], 0, 255) is Some);
        if n - 1 > i {
            assert(parsed(words[n - 1], 0, 255) != Some(number + 1));
            filaments_are_numbered_by_their_place(m, words, n - 1, i, number);
        }
    }
}

proof fn lemma_used_slots(mapping: Seq<i32>) -> (at: Seq<int>)
    ensures
        lists_marked(at, Seq::new(mapping.len(), |i: int| mapping[i] != -1)),
        used_slots(mapping).len() == at.len(),
        forall|i: int| 0 <= i < at.len() ==> #[trigger] used_slots(mapping)[i] == mapping[at[i]],
    decreases mapping.len(),
{
    let marks = Seq::new(mapping.len(), |i: int| mapping[i] != -1);
    if mapping.len() == 0 {
        assert(lists_marked(seq![], marks));
        seq![]
    } else {
        let less = mapping.drop_last();
        let before = lemma_used_slots(less);
        let fewer = Seq::new(less.len(), |i: int| less[i] != -1);
        lemma_lists_marked(before, fewer, mapping.last() != -1);
        assert(fewer.push(mapping.last() != -1) =~= marks);
        if mapping.last() != -1 {
            before.push(less.len() as int)
        } else {
            before
        }
    }
}

/// Of the slots of a print exactly those are kept, in their order, that are not -1.
pub proof fn unused_slots_are_left_out(mapping: Seq<i32>) -> (at: Seq<int>)
    ensures
        lists_marked(at, Seq::new(mapping.len(), |i: int| mapping[i] != -1)),
        used_slots(mapping).len() == at.len(),
        forall|i: int| 0 <= i < at.len() ==> #[trigger] used_slots(mapping)[i] == mapping[at[i]],
{
    lemma_used_slots(mapping)
}

/// A piece of the file is its complete lines, which end in a line feed, and a rest without
/// one.
pub proof fn complete_lines_end_in_a_line_feed(s: Seq<u8>)
    ensures
        complete(s) + incomplete(s) == s,
        complete(s).len() > 0 ==> complete(s).last() == 10,
        !incomplete(s).contains(10),
{
    lemma_line_end(s);
    assert(complete(s) + incomplete(s) =~= s);
    assert forall|i: int| 0 <= i < incomplete(s).len() implies incomplete(s)[i] != 10 by {
        assert(s[line_end(s) + i] != 10);
    }
}

/// The filament numbers of a list count up to the first word that is none.
pub proof fn numbers_count_up_to_another_word(words: Seq<Seq<char>>)
    ensures
        0 <= good_ids(words) <= words.len(),
        forall|i: int| 0 <= i < good_ids(words) ==> parsed(#[trigger] words[i], 0, 255) is Some,
        good_ids(words) < words.len() ==> parsed(words[good_ids(words)], 0, 255) is None,
    decreases words.len(),
{
    if words.len() > 0 && parsed(words[0], 0, 255) is Some {
        numbers_count_up_to_another_word(words.skip(1));
        let n = good_ids(words.skip(1));
        assert forall|i: int| 0 <= i < good_ids(words) implies parsed(#[trigger] words[i], 0, 255) is Some by {
            if i > 0 {
                assert(words.skip(1)[i - 1] == words[i]);
            }
        }
        if n < words.skip(1).len() {
            assert(words.skip(1)[n] == words[n + 1]);
        }
    }
}

/// Taking the slots of a print, or a piece of its file, changes nothing else.
pub proof fn reading_changes_nothing_else(a: GcodeFilamentCalc, b: GcodeFilamentCalc)
    ensures
        a.same_but_slots(b) <==> a == (GcodeFilamentCalc { ams_slots: a.ams_slots, ..b }),
        a.same_but_buffer(b) <==> a == (GcodeFilamentCalc { gcode_buffer: a.gcode_buffer, ..b }),
        a.extruder().layer == a.curr_layer,
        a.extruder().filament_id == a.curr_filament_id,
        a.extruder().swaps == a.filament_swaps,
        a.extruder().actions.len() == 0,
        forall|line: Seq<char>| #[trigger] a.extruder_after(line) == step(a.extruder(), line),
        forall|line: Seq<char>| #[trigger]
            a.readable(line) <==> a.curr_gcode_line < usize::MAX && can_step(a.extruder(), line),
        forall|line: Seq<char>, p: Seq<char>| #[trigger] behind(line, p) == line.skip(p.len() as int),
{
}

/// A line that selects filaments can be read where each of them is a number and the changes
/// can still be counted.
pub proof fn numbered_filaments_can_be_selected(e: Extruder, line: Seq<char>)
    requires
        starts_with(line, "M620 S"@),
    ensures
        can_step(e, line) <==> {
            let words = split_on(line, ' ');
            &&& e.swaps + words.len() <= i32::MAX
            &&& forall|i: int|
                0 <= i < words.len() && (#[trigger] words[i]).len() > 0 && words[i][0] == 'S' && words[i].last() == 'A'
                    ==> parsed(words[i].subrange(1, words[i].len() - 1), i32::MIN as int, i32::MAX as int) is Some
        },
{
    lines_are_told_by_their_beginning(line);
    let words = split_on(line, ' ');
    if forall|i: int|
        0 <= i < words.len() && (#[trigger] words[i]).len() > 0 && words[i][0] == 'S' && words[i].last() == 'A'
            ==> parsed(words[i].subrange(1, words[i].len() - 1), i32::MIN as int, i32::MAX as int) is Some {
        assert(selections_are_numbers(words));
    }
}

/// A list of filament numbers can be read unless a zero comes before the first word that is
/// no number.
pub proof fn filament_numbers_count_from_one(e: Extruder, line: Seq<char>)
    requires
        starts_with(line, "; filament: "@),
    ensures
        can_step(e, line) <==> {
            let words = split_on(line.skip(12), ',');
            forall|i: int|
                0 <= i < words.len() && parsed(#[trigger] words[i], 0, 255) == Some(0int) ==> exists|j: int|
                    0 <= j < i && parsed(#[trigger] words[j], 0, 255) is None
        },
{
    reveal_strlit("; filament: ");
    lines_are_told_by_their_beginning(line);
    let words = split_on(line.skip(12), ',');
    numbers_count_up_to_another_word(words);
    let n = good_ids(words);
    if ids_count_from_one(words) {
        assert forall|i: int| 0 <= i < words.len() && parsed(#[trigger] words[i], 0, 255) == Some(0int) implies exists|
            j: int,
        |
            0 <= j < i && parsed(#[trigger] words[j], 0, 255) is None by {
            assert(i >= n);
            assert(parsed(words[n], 0, 255) is None);
        }
    } else {
        let i = choose|i: int| 0 <= i < n && parsed(#[trigger] words[i], 0, 255) == Some(0int);
        assert(parsed(words[i], 0, 255) == Some(0int));
        assert forall|j: int| 0 <= j < i implies parsed(#[trigger] words[j], 0, 255) is Some by {}
    }
}

} // verus!
