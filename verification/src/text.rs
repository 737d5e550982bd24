//! Text as sequences of characters: searching, splitting, trimming and
//! replacing, each executable function against a specification function.

use vstd::prelude::*;
use vstd::utf8::{decode_utf8, valid_utf8};

verus! {

/// `String::push` appends one character.
pub assume_specification[ String::push ](s: &mut String, c: char)
    ensures
        final(s)@ == old(s)@.push(c),
;

/// `core::str::from_utf8`: the bytes are text exactly when they are valid UTF-8, and
/// then the text that they encode.
#[verifier::external_body]
pub(crate) fn utf8_text(bytes: &[u8]) -> (r: Option<String>)
    ensures
        r is Some == valid_utf8(bytes@),
        r is Some ==> r->0@ == decode_utf8(bytes@),
{
    match core::str::from_utf8(bytes) {
        Ok(text) => Some(text.to_string()),
        Err(_) => None,
    }
}

/// The characters that Unicode counts as white space.
pub open spec fn white_space(c: char) -> bool {
    let n = c as u32;
    ||| 0x09 <= n <= 0x0d
    ||| n == 0x20
    ||| n == 0x85
    ||| n == 0xa0
    ||| n == 0x1680
    ||| 0x2000 <= n <= 0x200a
    ||| 0x2028 <= n <= 0x2029
    ||| n == 0x202f
    ||| n == 0x205f
    ||| n == 0x3000
}

/// Whether a character is white space.
pub fn is_white_space(c: char) -> (r: bool)
    ensures
        r == white_space(c),
{
    let n = c as u32;
    (0x09 <= n && n <= 0x0d) || n == 0x20 || n == 0x85 || n == 0xa0 || n == 0x1680 || (0x2000 <= n && n <= 0x200a)
        || (0x2028 <= n && n <= 0x2029) || n == 0x202f || n == 0x205f || n == 0x3000
}

/// The position of the first `c` in `s`, or the length of `s` where there is none.
pub open spec fn position(s: Seq<char>, c: char) -> int
    decreases s.len(),
{
    if s.len() == 0 {
        0
    } else if s[0] == c {
        0
    } else {
        1 + position(s.skip(1), c)
    }
}

pub proof fn lemma_position(s: Seq<char>, c: char)
    ensures
        0 <= position(s, c) <= s.len(),
        position(s, c) < s.len() ==> s[position(s, c)] == c,
        forall|i: int| 0 <= i < position(s, c) ==> s[i] != c,
    decreases s.len(),
{
    if s.len() > 0 && s[0] != c {
        lemma_position(s.skip(1), c);
        assert forall|i: int| 0 <= i < position(s, c) implies s[i] != c by {
            if i > 0 {
                assert(s.skip(1)[i - 1] != c);
            }
        }
    }
}

/// A position is determined by what stands before it and at it.
pub proof fn lemma_position_is(s: Seq<char>, c: char, k: int)
    requires
        0 <= k <= s.len(),
        forall|i: int| 0 <= i < k ==> s[i] != c,
        k < s.len() ==> s[k] == c,
    ensures
        position(s, c) == k,
{
    lemma_position(s, c);
}

/// The characters of a text.
pub fn chars_of(text: &str) -> (r: Vec<char>)
    ensures
        r@ == text@,
{
    let mut r: Vec<char> = Vec::new();
    for c in it: text.chars()
        invariant
            r@ == it.seq().take(it.index() as int),
            it.seq() == text@,
    {
        proof {
            assert(it.seq().take(it.index() as int + 1) == it.seq().take(it.index() as int).push(c));
        }
        r.push(c);
    }
    proof {
        assert(text@.take(text@.len() as int) == text@);
    }
    r
}

/// The text of a sequence of characters.
pub fn text_of(chars: &[char]) -> (r: String)
    ensures
        r@ == chars@,
{
    let mut r = String::new();
    let mut i: usize = 0;
    while i < chars.len()
        invariant
            i <= chars.len(),
            r@ == chars@.take(i as int),
        decreases chars.len() - i,
    {
        r.push(chars[i]);
        i += 1;
        proof {
            assert(chars@.take(i as int) == chars@.take(i - 1).push(chars@[i - 1]));
        }
    }
    proof {
        assert(chars@.take(chars@.len() as int) == chars@);
    }
    r
}

/// Joins two texts.
pub fn joined(a: &str, b: &str) -> (r: String)
    ensures
        r@ == a@ + b@,
{
    let mut chars = chars_of(a);
    let tail = chars_of(b);
    append(&mut chars, tail.as_slice());
    text_of(chars.as_slice())
}

/// Whether a text is empty.
pub fn is_blank(text: &str) -> (r: bool)
    ensures
        r == (text@.len() == 0),
{
    let chars = chars_of(text);
    chars.len() == 0
}

/// Whether two texts are the same.
pub fn same_text(a: &str, b: &str) -> (r: bool)
    ensures
        r == (a@ == b@),
{
    let x = chars_of(a);
    let y = chars_of(b);
    same_chars(x.as_slice(), y.as_slice())
}

/// Finds the first `c` at or after `from`; gives the length where there is none.
pub fn find_from(s: &[char], c: char, from: usize) -> (r: usize)
    requires
        from <= s@.len(),
    ensures
        r == from + position(s@.skip(from as int), c),
        from <= r <= s@.len(),
{
    let mut i: usize = from;
    while i < s.len()
        invariant_except_break
            from <= i <= s@.len(),
            forall|j: int| from <= j < i ==> s@[j] != c,
        ensures
            from <= i <= s@.len(),
            forall|j: int| from <= j < i ==> s@[j] != c,
            i < s@.len() ==> s@[i as int] == c,
        decreases s@.len() - i,
    {
        if s[i] == c {
            break;
        }
        i += 1;
    }
    proof {
        lemma_position_is(s@.skip(from as int), c, i - from);
    }
    i
}

/// Copies the characters in `[from, to)`.
pub fn cut(s: &[char], from: usize, to: usize) -> (r: Vec<char>)
    requires
        from <= to <= s@.len(),
    ensures
        r@ == s@.subrange(from as int, to as int),
{
    let mut r: Vec<char> = Vec::new();
    let mut i: usize = from;
    while i < to
        invariant
            from <= i <= to <= s@.len(),
            r@ == s@.subrange(from as int, i as int),
        decreases to - i,
    {
        r.push(s[i]);
        i += 1;
        proof {
            assert(s@.subrange(from as int, i as int) == s@.subrange(from as int, i - 1).push(s@[i - 1]));
        }
    }
    r
}

/// Whether two sequences hold the same characters.
pub fn same_chars(a: &[char], b: &[char]) -> (r: bool)
    ensures
        r == (a@ == b@),
{
    if a.len() != b.len() {
        return false;
    }
    let mut i: usize = 0;
    while i < a.len()
        invariant
            i <= a@.len() == b@.len(),
            forall|j: int| 0 <= j < i ==> a@[j] == b@[j],
        decreases a@.len() - i,
    {
        if a[i] != b[i] {
            return false;
        }
        i += 1;
    }
    proof {
        assert(a@ =~= b@);
    }
    true
}

/// Whether `s` begins with `p`.
pub open spec fn starts_with(s: Seq<char>, p: Seq<char>) -> bool {
    p.len() <= s.len() && s.take(p.len() as int) == p
}

/// Whether `p` stands in `s` at position `at`.
pub fn has_at(s: &[char], at: usize, p: &[char]) -> (r: bool)
    requires
        at <= s@.len(),
    ensures
        r == starts_with(s@.skip(at as int), p@),
{
    if p.len() > s.len() - at {
        return false;
    }
    let mut i: usize = 0;
    while i < p.len()
        invariant
            i <= p@.len() <= s.len() - at,
            forall|j: int| 0 <= j < i ==> s@[at + j] == p@[j],
        decreases p@.len() - i,
    {
        if s[at + i] != p[i] {
            proof {
                assert(s@.skip(at as int).take(p@.len() as int)[i as int] == s@[at + i]);
            }
            return false;
        }
        i += 1;
    }
    proof {
        assert(s@.skip(at as int).take(p@.len() as int) =~= p@);
    }
    true
}

/// Whether `s` begins with `p`.
pub fn begins(s: &[char], p: &str) -> (r: bool)
    ensures
        r == starts_with(s@, p@),
{
    let p = chars_of(p);
    proof {
        assert(s@.skip(0) == s@);
    }
    has_at(s, 0, p.as_slice())
}

/// Whether `p` occurs somewhere in `s`.
pub open spec fn contains_text(s: Seq<char>, p: Seq<char>) -> bool {
    exists|i: int| 0 <= i <= s.len() && starts_with(#[trigger] s.skip(i), p)
}

/// Whether `p` occurs somewhere in `s`.
pub fn contains(s: &[char], p: &[char]) -> (r: bool)
    ensures
        r == contains_text(s@, p@),
{
    let mut i: usize = 0;
    loop
        invariant
            i <= s@.len(),
            forall|j: int| 0 <= j < i ==> !starts_with(#[trigger] s@.skip(j), p@),
        decreases s@.len() - i,
    {
        if has_at(s, i, p) {
            return true;
        }
        if i == s.len() {
            return false;
        }
        i += 1;
    }
}

/// The pieces of `s` between the separators `c`; there is always at least one.
pub open spec fn split_on(s: Seq<char>, c: char) -> Seq<Seq<char>>
    decreases s.len(),
    via split_on_shrinks
{
    let i = position(s, c);
    if i >= s.len() {
        seq![s]
    } else {
        seq![s.take(i)] + split_on(s.skip(i + 1), c)
    }
}

#[via_fn]
proof fn split_on_shrinks(s: Seq<char>, c: char) {
    lemma_position(s, c);
}

/// The views of a list of character vectors.
pub open spec fn views(v: Seq<Vec<char>>) -> Seq<Seq<char>> {
    v.map_values(|x: Vec<char>| x@)
}

pub proof fn lemma_views_push(v: Seq<Vec<char>>, x: Vec<char>)
    ensures
        views(v.push(x)) == views(v).push(x@),
{
    assert(views(v.push(x)) =~= views(v).push(x@));
}

/// The texts of a list of strings.
pub open spec fn texts(v: Seq<String>) -> Seq<Seq<char>> {
    v.map_values(|x: String| x@)
}

/// Makes strings of a list of character vectors.
pub fn strings_of(v: &Vec<Vec<char>>) -> (r: Vec<String>)
    ensures
        texts(r@) == views(v@),
{
    let mut r: Vec<String> = Vec::new();
    let mut i: usize = 0;
    while i < v.len()
        invariant
            i <= v@.len(),
            texts(r@) =~= views(v@).take(i as int),
        decreases v@.len() - i,
    {
        let text = text_of(v[i].as_slice());
        proof {
            assert(texts(r@.push(text)) =~= texts(r@).push(text@));
            assert(views(v@).take(i + 1) =~= views(v@).take(i as int).push(views(v@)[i as int]));
        }
        r.push(text);
        i += 1;
    }
    proof {
        assert(views(v@).take(v@.len() as int) =~= views(v@));
    }
    r
}

/// Splits at every `c`.
pub fn split(s: &[char], c: char) -> (r: Vec<Vec<char>>)
    ensures
        views(r@) == split_on(s@, c),
        r@.len() >= 1,
{
    let mut r: Vec<Vec<char>> = Vec::new();
    let mut from: usize = 0;
    proof {
        assert(s@.skip(0) == s@);
        assert(views(r@) + split_on(s@, c) == split_on(s@, c));
    }
    loop
        invariant
            from <= s@.len(),
            views(r@) + split_on(s@.skip(from as int), c) == split_on(s@, c),
        decreases s@.len() - from,
    {
        let at = find_from(s, c, from);
        let piece = cut(s, from, at);
        let ghost rest = s@.skip(from as int);
        let ghost before = views(r@);
        proof {
            lemma_views_push(r@, piece);
            assert(piece@ == rest.take(at - from));
        }
        r.push(piece);
        if at == s.len() {
            proof {
                assert(rest.take(at - from) == rest);
                assert(before + seq![rest] == before.push(rest));
            }
            return r;
        }
        proof {
            assert(rest.skip(at - from + 1) == s@.skip(at + 1));
            assert(before + (seq![piece@] + split_on(s@.skip(at + 1), c)) == before.push(piece@) + split_on(
                s@.skip(at + 1),
                c,
            ));
        }
        from = at + 1;
    }
}

/// The line without the carriage return that may end it.
pub open spec fn without_cr(s: Seq<char>) -> Seq<char> {
    if s.len() > 0 && s.last() == '\r' {
        s.drop_last()
    } else {
        s
    }
}

/// The lines of a text: they end in a line feed, or in a carriage return and a
/// line feed, neither of which belongs to the line. The last line may lack its end.
pub open spec fn lines_of(s: Seq<char>) -> Seq<Seq<char>>
    decreases s.len(),
    via lines_of_shrinks
{
    let i = position(s, '\n');
    if s.len() == 0 {
        seq![]
    } else if i >= s.len() {
        seq![s]
    } else {
        seq![without_cr(s.take(i))] + lines_of(s.skip(i + 1))
    }
}

#[via_fn]
proof fn lines_of_shrinks(s: Seq<char>) {
    lemma_position(s, '\n');
}

/// Cuts a text into its lines.
pub fn lines(s: &[char]) -> (r: Vec<Vec<char>>)
    ensures
        views(r@) == lines_of(s@),
{
    let mut r: Vec<Vec<char>> = Vec::new();
    let mut from: usize = 0;
    proof {
        assert(s@.skip(0) == s@);
        assert(views(r@) + lines_of(s@) == lines_of(s@));
    }
    while from < s.len()
        invariant
            from <= s@.len(),
            views(r@) + lines_of(s@.skip(from as int)) == lines_of(s@),
        decreases s@.len() - from,
    {
        let at = find_from(s, '\n', from);
        let ghost rest = s@.skip(from as int);
        let ghost before = views(r@);
        if at == s.len() {
            let piece = cut(s, from, at);
            proof {
                lemma_views_push(r@, piece);
                assert(piece@ == rest);
                assert(before + seq![rest] == before.push(rest));
                assert(s@.skip(at as int).len() == 0);
                assert(before.push(rest) + lines_of(s@.skip(at as int)) == before.push(rest));
            }
            r.push(piece);
            from = at;
        } else {
            let end: usize = if at > from && s[at - 1] == '\r' { at - 1 } else { at };
            let piece = cut(s, from, end);
            proof {
                lemma_views_push(r@, piece);
                assert(piece@ == without_cr(rest.take(at - from)));
                assert(rest.skip(at - from + 1) == s@.skip(at + 1));
                assert(before + (seq![piece@] + lines_of(s@.skip(at + 1))) == before.push(piece@) + lines_of(
                    s@.skip(at + 1),
                ));
            }
            r.push(piece);
            from = at + 1;
        }
    }
    proof {
        assert(views(r@) + lines_of(s@.skip(from as int)) == views(r@));
    }
    r
}

/// The text without the white space that begins it.
pub open spec fn trim_start(s: Seq<char>) -> Seq<char>
    decreases s.len(),
{
    if s.len() > 0 && white_space(s[0]) {
        trim_start(s.skip(1))
    } else {
        s
    }
}

/// The text without the white space that ends it.
pub open spec fn trim_end(s: Seq<char>) -> Seq<char>
    decreases s.len(),
{
    if s.len() > 0 && white_space(s.last()) {
        trim_end(s.drop_last())
    } else {
        s
    }
}

/// The text without the white space around it.
pub open spec fn trimmed(s: Seq<char>) -> Seq<char> {
    trim_end(trim_start(s))
}

/// Removes the white space around a text.
pub fn trim(s: &[char]) -> (r: Vec<char>)
    ensures
        r@ == trimmed(s@),
{
    let mut from: usize = 0;
    proof {
        assert(s@.skip(0) == s@);
    }
    while from < s.len() && is_white_space(s[from])
        invariant
            from <= s@.len(),
            trim_start(s@.skip(from as int)) == trim_start(s@),
        decreases s@.len() - from,
    {
        proof {
            assert(s@.skip(from as int).skip(1) == s@.skip(from + 1));
        }
        from += 1;
    }
    let ghost rest = s@.skip(from as int);
    let mut to: usize = s.len();
    proof {
        assert(rest == s@.subrange(from as int, to as int));
    }
    while to > from && is_white_space(s[to - 1])
        invariant
            from <= to <= s@.len(),
            rest == s@.skip(from as int),
            trim_end(s@.subrange(from as int, to as int)) == trim_end(rest),
        decreases to,
    {
        proof {
            assert(s@.subrange(from as int, to as int).drop_last() == s@.subrange(from as int, to - 1));
        }
        to -= 1;
    }
    cut(s, from, to)
}

/// The text with every occurrence of `from`, read from the left without overlap,
/// replaced by `to`. `from` is not empty.
pub open spec fn replaced(s: Seq<char>, from: Seq<char>, to: Seq<char>) -> Seq<char>
    decreases s.len(),
{
    if s.len() == 0 || from.len() == 0 {
        s
    } else if starts_with(s, from) {
        to + replaced(s.skip(from.len() as int), from, to)
    } else {
        seq![s[0]] + replaced(s.skip(1), from, to)
    }
}

/// Replaces every occurrence of `from` by `to`.
pub fn replace(s: &[char], from: &[char], to: &[char]) -> (r: Vec<char>)
    requires
        from@.len() > 0,
    ensures
        r@ == replaced(s@, from@, to@),
{
    let mut r: Vec<char> = Vec::new();
    let mut i: usize = 0;
    proof {
        assert(s@.skip(0) == s@);
        assert(r@ + replaced(s@, from@, to@) == replaced(s@, from@, to@));
    }
    while i < s.len()
        invariant
            i <= s.len(),
            from@.len() > 0,
            r@ + replaced(s@.skip(i as int), from@, to@) == replaced(s@, from@, to@),
        decreases s.len() - i,
    {
        let ghost rest = s@.skip(i as int);
        let ghost before = r@;
        if has_at(s, i, from) {
            append(&mut r, to);
            proof {
                assert(rest.skip(from@.len() as int) == s@.skip(i + from@.len()));
                assert(before + (to@ + replaced(rest.skip(from@.len() as int), from@, to@)) == before + to@
                    + replaced(rest.skip(from@.len() as int), from@, to@));
            }
            i += from.len();
        } else {
            r.push(s[i]);
            proof {
                assert(rest.skip(1) == s@.skip(i + 1));
                assert(before + (seq![rest[0]] + replaced(rest.skip(1), from@, to@)) == before.push(rest[0])
                    + replaced(rest.skip(1), from@, to@));
            }
            i += 1;
        }
    }
    proof {
        assert(r@ + replaced(s@.skip(i as int), from@, to@) == r@);
    }
    r
}

/// Copies the bytes from `from` up to `to`.
pub fn bytes_between(s: &[u8], from: usize, to: usize) -> (r: Vec<u8>)
    requires
        from <= to <= s@.len(),
    ensures
        r@ == s@.subrange(from as int, to as int),
{
    let mut r: Vec<u8> = Vec::new();
    let mut i: usize = from;
    while i < to
        invariant
            from <= i <= to <= s@.len(),
            r@ == s@.subrange(from as int, i as int),
        decreases to - i,
    {
        r.push(s[i]);
        i += 1;
        proof {
            assert(s@.subrange(from as int, i as int) == s@.subrange(from as int, i - 1).push(s@[i - 1]));
        }
    }
    r
}

/// Appends characters.
pub fn append(v: &mut Vec<char>, tail: &[char])
    ensures
        final(v)@ == old(v)@ + tail@,
{
    let mut i: usize = 0;
    proof {
        assert(v@ + tail@.take(0) == v@);
    }
    while i < tail.len()
        invariant
            i <= tail@.len(),
            v@ == old(v)@ + tail@.take(i as int),
        decreases tail@.len() - i,
    {
        v.push(tail[i]);
        i += 1;
        proof {
            assert(tail@.take(i as int) == tail@.take(i - 1).push(tail@[i - 1]));
            assert(old(v)@ + tail@.take(i as int) == (old(v)@ + tail@.take(i - 1)).push(tail@[i - 1]));
        }
    }
    proof {
        assert(tail@.take(tail@.len() as int) == tail@);
    }
}

/// `at` lists, in rising order, exactly the positions that are marked.
pub open spec fn lists_marked(at: Seq<int>, marks: Seq<bool>) -> bool {
    &&& forall|i: int| 0 <= i < at.len() ==> 0 <= #[trigger] at[i] < marks.len() && marks[at[i]]
    &&& forall|i: int, j: int| 0 <= i < j < at.len() ==> #[trigger] at[i] < #[trigger] at[j]
    &&& forall|k: int| 0 <= k < marks.len() && #[trigger] marks[k] ==> at.contains(k)
}

/// One more position goes to the end of the list where it is marked.
pub proof fn lemma_lists_marked(at: Seq<int>, marks: Seq<bool>, marked: bool)
    requires
        lists_marked(at, marks),
    ensures
        marked ==> lists_marked(at.push(marks.len() as int), marks.push(marked)),
        !marked ==> lists_marked(at, marks.push(marked)),
{
    let n = marks.len() as int;
    let more = marks.push(marked);
    if marked {
        let now = at.push(n);
        assert forall|k: int| 0 <= k < more.len() && #[trigger] more[k] implies now.contains(k) by {
            if k < n {
                assert(marks[k]);
                let i = choose|i: int| 0 <= i < at.len() && at[i] == k;
                assert(now[i] == k);
            } else {
                assert(now[at.len() as int] == k);
            }
        }
    } else {
        assert forall|k: int| 0 <= k < more.len() && #[trigger] more[k] implies at.contains(k) by {
            assert(marks[k]);
        }
    }
}

/// A text begins with another exactly where it is as long at least and has the same
/// characters up to there.
pub proof fn beginning_goes_by_characters(s: Seq<char>, p: Seq<char>)
    ensures
        starts_with(s, p) <==> p.len() <= s.len() && forall|i: int| 0 <= i < p.len() ==> s[i] == p[i],
{
    if p.len() <= s.len() && forall|i: int| 0 <= i < p.len() ==> s[i] == p[i] {
        assert(s.take(p.len() as int) =~= p);
    }
    if starts_with(s, p) {
        assert forall|i: int| 0 <= i < p.len() implies s[i] == p[i] by {
            assert(s.take(p.len() as int)[i] == s[i]);
        }
    }
}

/// Pieces with a separator between any two of them.
pub open spec fn joined_by(pieces: Seq<Seq<char>>, c: char) -> Seq<char>
    decreases pieces.len(),
{
    if pieces.len() == 0 {
        seq![]
    } else if pieces.len() == 1 {
        pieces[0]
    } else {
        pieces[0] + seq![c] + joined_by(pieces.skip(1), c)
    }
}

/// The pieces of a text hold no separator, and joined by it they are the text again.
pub proof fn pieces_join(s: Seq<char>, c: char)
    ensures
        split_on(s, c).len() >= 1,
        joined_by(split_on(s, c), c) == s,
        forall|i: int| 0 <= i < split_on(s, c).len() ==> !(#[trigger] split_on(s, c)[i]).contains(c),
    decreases s.len(),
{
    lemma_position(s, c);
    let i = position(s, c);
    let all = split_on(s, c);
    if i < s.len() {
        let rest = split_on(s.skip(i + 1), c);
        pieces_join(s.skip(i + 1), c);
        assert(all[0] == s.take(i));
        assert(all.skip(1) =~= rest);
        assert(s.take(i) + seq![c] + s.skip(i + 1) =~= s);
        assert forall|k: int| 0 <= k < all.len() implies !(#[trigger] all[k]).contains(c) by {
            if k > 0 {
                assert(all[k] == rest[k - 1]);
            } else {
                assert forall|j: int| 0 <= j < s.take(i).len() implies s.take(i)[j] != c by {
                    assert(s.take(i)[j] == s[j]);
                }
            }
        }
    } else {
        assert(all[0] == s);
        assert(!s.contains(c));
    }
}

/// A line feed ends a line, and a carriage return just before it belongs to the end. What
/// has no end is a line as it stands.
pub proof fn line_feed_ends_a_line(line: Seq<char>, rest: Seq<char>)
    requires
        !line.contains('\n'),
    ensures
        line.len() == 0 || line.last() != '\r' ==> lines_of(line + seq!['\n'] + rest) == seq![line] + lines_of(rest),
        lines_of(line + seq!['\r', '\n'] + rest) == seq![line] + lines_of(rest),
        line.len() > 0 ==> lines_of(line) == seq![line],
        lines_of(seq![]) == Seq::<Seq<char>>::empty(),
{
    assert forall|i: int| 0 <= i < line.len() implies line[i] != '\n' by {
        assert(line.contains(line[i]));
    }
    let n = line.len() as int;
    let a = line + seq!['\n'] + rest;
    lemma_position_is(a, '\n', n);
    assert(a.take(n) =~= line);
    assert(a.skip(n + 1) =~= rest);
    let b = line + seq!['\r', '\n'] + rest;
    assert(b[n] == '\r');
    lemma_position_is(b, '\n', n + 1);
    assert(b.take(n + 1) =~= line.push('\r'));
    assert(line.push('\r').drop_last() =~= line);
    assert(b.skip(n + 2) =~= rest);
    lemma_position_is(line, '\n', n);
}

/// What is cut off a text is the white space around it, all of it and nothing else.
pub proof fn white_space_around_is_cut_off(s: Seq<char>) -> (ends: (int, int))
    ensures
        0 <= ends.0 <= ends.1 <= s.len(),
        trimmed(s) == s.subrange(ends.0, ends.1),
        forall|i: int| 0 <= i < ends.0 || ends.1 <= i < s.len() ==> white_space(#[trigger] s[i]),
        ends.0 < ends.1 ==> !white_space(s[ends.0]) && !white_space(s[ends.1 - 1]),
{
    let from = lemma_trim_start(s);
    let t = s.skip(from);
    let to = lemma_trim_end(t);
    assert(t.take(to) =~= s.subrange(from, from + to));
    assert forall|i: int| 0 <= i < from || from + to <= i < s.len() implies white_space(#[trigger] s[i]) by {
        if i >= from {
            assert(t[i - from] == s[i]);
        }
    }
    if to > 0 {
        assert(t[0] == s[from] && t[to - 1] == s[from + to - 1]);
        assert(!white_space(t[0]));
    }
    (from, from + to)
}

proof fn lemma_trim_start(s: Seq<char>) -> (from: int)
    ensures
        0 <= from <= s.len(),
        trim_start(s) == s.skip(from),
        forall|i: int| 0 <= i < from ==> white_space(#[trigger] s[i]),
        from < s.len() ==> !white_space(s[from]),
    decreases s.len(),
{
    if s.len() > 0 && white_space(s[0]) {
        let k = lemma_trim_start(s.skip(1));
        assert(s.skip(1).skip(k) =~= s.skip(k + 1));
        assert forall|i: int| 0 <= i < k + 1 implies white_space(#[trigger] s[i]) by {
            if i > 0 {
                assert(s.skip(1)[i - 1] == s[i]);
            }
        }
        k + 1
    } else {
        assert(s.skip(0) =~= s);
        0
    }
}

proof fn lemma_trim_end(s: Seq<char>) -> (to: int)
    ensures
        0 <= to <= s.len(),
        trim_end(s) == s.take(to),
        forall|i: int| to <= i < s.len() ==> white_space(#[trigger] s[i]),
        to > 0 ==> !white_space(s[to - 1]),
    decreases s.len(),
{
    if s.len() > 0 && white_space(s.last()) {
        let k = lemma_trim_end(s.drop_last());
        assert(s.drop_last().take(k) =~= s.take(k));
        assert forall|i: int| k <= i < s.len() implies white_space(#[trigger] s[i]) by {
            if i < s.len() - 1 {
                assert(s.drop_last()[i] == s[i]);
            }
        }
        k
    } else {
        assert(s.take(s.len() as int) =~= s);
        s.len() as int
    }
}

/// Blanks, tabs and the ends of lines are white space; what is printed is none.
pub proof fn printed_characters_are_no_white_space(c: char)
    ensures
        c == ' ' || c == '\t' || c == '\n' || c == '\r' ==> white_space(c),
        '!' <= c && c <= '~' ==> !white_space(c),
{
}

/// A text contains another exactly where it is that text with something before and after.
pub proof fn contained_text_stands_between_others(s: Seq<char>, before: Seq<char>, p: Seq<char>, after: Seq<char>)
    ensures
        contains_text(before + p + after, p),
        contains_text(s, p) ==> exists|i: int|
            0 <= i && i + p.len() <= s.len() && #[trigger] s.subrange(i, i + p.len()) == p,
{
    let whole = before + p + after;
    let at = before.len() as int;
    assert(whole.skip(at).take(p.len() as int) =~= p);
    assert(starts_with(whole.skip(at), p));
    if contains_text(s, p) {
        let i = choose|i: int| 0 <= i <= s.len() && starts_with(#[trigger] s.skip(i), p);
        assert(s.skip(i).take(p.len() as int) =~= s.subrange(i, i + p.len()));
    }
}

/// What stands before the first occurrence of a text stays, the text is replaced, and so on
/// behind it. Where it does not occur, nothing changes.
pub proof fn occurrence_is_replaced(before: Seq<char>, from: Seq<char>, to: Seq<char>, after: Seq<char>)
    requires
        from.len() > 0,
        forall|i: int| 0 <= i < before.len() ==> !starts_with(#[trigger] (before + from + after).skip(i), from),
    ensures
        replaced(before + from + after, from, to) == before + to + replaced(after, from, to),
    decreases before.len(),
{
    let s = before + from + after;
    if before.len() == 0 {
        assert(s.take(from.len() as int) =~= from);
        assert(s.skip(from.len() as int) =~= after);
        assert(before + to + replaced(after, from, to) =~= to + replaced(after, from, to));
    } else {
        assert(s.skip(0) =~= s);
        assert(!starts_with(s, from));
        let rest = before.skip(1);
        assert(s.skip(1) =~= rest + from + after);
        assert forall|i: int| 0 <= i < rest.len() implies !starts_with(
            #[trigger] (rest + from + after).skip(i),
            from,
        ) by {
            assert((rest + from + after).skip(i) =~= s.skip(i + 1));
        }
        occurrence_is_replaced(rest, from, to, after);
        assert(seq![s[0]] + (rest + to + replaced(after, from, to)) =~= before + to + replaced(after, from, to));
    }
}

/// A text that does not occur is not replaced.
pub proof fn other_text_stays(s: Seq<char>, from: Seq<char>, to: Seq<char>)
    requires
        from.len() > 0,
        !contains_text(s, from),
    ensures
        replaced(s, from, to) == s,
    decreases s.len(),
{
    if s.len() > 0 {
        assert(s.skip(0) =~= s);
        assert(!starts_with(s, from));
        if contains_text(s.skip(1), from) {
            let i = choose|i: int| 0 <= i <= s.skip(1).len() && starts_with(#[trigger] s.skip(1).skip(i), from);
            assert(s.skip(1).skip(i) =~= s.skip(i + 1));
            assert(starts_with(s.skip(i + 1), from));
        }
        other_text_stays(s.skip(1), from, to);
        assert(seq![s[0]] + s.skip(1) =~= s);
    }
}

/// What stands before the first occurrence of a text stays.
pub proof fn lemma_head_stays(head: Seq<char>, rest: Seq<char>, from: Seq<char>, to: Seq<char>)
    requires
        from.len() > 0,
        forall|i: int| 0 <= i < head.len() ==> !starts_with(#[trigger] (head + rest).skip(i), from),
    ensures
        replaced(head + rest, from, to) == head + replaced(rest, from, to),
    decreases head.len(),
{
    let s = head + rest;
    if head.len() == 0 {
        assert(s =~= rest);
        assert(head + replaced(rest, from, to) =~= replaced(rest, from, to));
    } else {
        assert(s.skip(0) =~= s);
        assert(!starts_with(s, from));
        let tail = head.skip(1);
        assert(s.skip(1) =~= tail + rest);
        assert forall|i: int| 0 <= i < tail.len() implies !starts_with(#[trigger] (tail + rest).skip(i), from) by {
            assert((tail + rest).skip(i) =~= s.skip(i + 1));
        }
        lemma_head_stays(tail, rest, from, to);
        assert(seq![s[0]] + (tail + replaced(rest, from, to)) =~= head + replaced(rest, from, to));
    }
}

} // verus!
