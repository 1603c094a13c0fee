//! Text as sequences of characters: trimming, splitting, searching, and the
//! decimal numbers that flags, logs and reports are made of.
use vstd::prelude::*;
use vstd::string::*;

verus! {

// ---------------------------------------------------------------------------
// Trusted parts of std
// ---------------------------------------------------------------------------

/// `String::push` of std: one more character at the end.
pub assume_specification[ String::push ](s: &mut String, c: char)
    ensures
        final(s)@ == old(s)@.push(c),
;

/// What std prints for a string under `{:?}`: the string in double quotes, with
/// the escapes that its `Debug` implementation chooses.
pub uninterp spec fn debug_text(s: Seq<char>) -> Seq<char>;

/// `format!("{:?}", s)` of std. The result depends on the string alone; which
/// characters are escaped, and how, is left unsaid.
#[verifier::external_body]
pub(crate) fn quoted(s: &str) -> (r: String)
    ensures
        r@ == debug_text(s@),
{
    format!("{:?}", s)
}

// ---------------------------------------------------------------------------
// Characters and strings
// ---------------------------------------------------------------------------

/// Whether two strings hold the same characters.
pub fn same(a: &str, b: &str) -> (r: bool)
    ensures
        r == (a@ == b@),
{
    a.to_owned() == b.to_owned()
}

/// The characters of a string.
pub fn chars_of(s: &str) -> (r: Vec<char>)
    ensures
        r@ == s@,
{
    let mut out: Vec<char> = Vec::new();
    for c in it: s.chars()
        invariant
            out@ == it.seq().take(it.index() as int),
            it.seq() == s@,
    {
        out.push(c);
    }
    out
}

/// The string that `chars` spell between `from` and `to`.
pub fn text_between(chars: &Vec<char>, from: usize, to: usize) -> (r: String)
    requires
        from <= to <= chars@.len(),
    ensures
        r@ == chars@.subrange(from as int, to as int),
{
    let mut out = String::new();
    let mut i: usize = from;
    while i < to
        invariant
            from <= i <= to <= chars@.len(),
            out@ == chars@.subrange(from as int, i as int),
        decreases to - i,
    {
        out.push(chars[i]);
        i = i + 1;
        assert(chars@.subrange(from as int, i as int) =~= chars@.subrange(
            from as int,
            i - 1,
        ).push(chars@[i - 1]));
    }
    out
}

/// The characters with the Unicode property White_Space.
pub open spec fn white_space(c: char) -> bool {
    ||| '\u{9}' <= c <= '\u{d}'
    ||| c == '\u{20}'
    ||| c == '\u{85}'
    ||| c == '\u{a0}'
    ||| c == '\u{1680}'
    ||| '\u{2000}' <= c <= '\u{200a}'
    ||| c == '\u{2028}'
    ||| c == '\u{2029}'
    ||| c == '\u{202f}'
    ||| c == '\u{205f}'
    ||| c == '\u{3000}'
}

/// Whether a character is white space.
pub fn is_white_space(c: char) -> (r: bool)
    ensures
        r == white_space(c),
{
    ('\u{9}' <= c && c <= '\u{d}') || c == '\u{20}' || c == '\u{85}' || c == '\u{a0}' || c
        == '\u{1680}' || ('\u{2000}' <= c && c <= '\u{200a}') || c == '\u{2028}' || c == '\u{2029}'
        || c == '\u{202f}' || c == '\u{205f}' || c == '\u{3000}'
}

/// `s` without the white space that it starts with.
pub open spec fn trim_start(s: Seq<char>) -> Seq<char>
    decreases s.len(),
{
    if s.len() > 0 && white_space(s[0]) {
        trim_start(s.drop_first())
    } else {
        s
    }
}

/// `s` without the white space that it ends with.
pub open spec fn trim_end(s: Seq<char>) -> Seq<char>
    decreases s.len(),
{
    if s.len() > 0 && white_space(s.last()) {
        trim_end(s.drop_last())
    } else {
        s
    }
}

/// `s` without the white space around it.
pub open spec fn trim(s: Seq<char>) -> Seq<char> {
    trim_end(trim_start(s))
}

/// Where `trim` cuts the part of `chars` between `from` and `to`.
pub fn trim_bounds(chars: &Vec<char>, from: usize, to: usize) -> (r: (usize, usize))
    requires
        from <= to <= chars@.len(),
    ensures
        from <= r.0 <= r.1 <= to,
        chars@.subrange(r.0 as int, r.1 as int) == trim(chars@.subrange(from as int, to as int)),
{
    let ghost whole = chars@.subrange(from as int, to as int);
    let mut a: usize = from;
    while a < to && is_white_space(chars[a])
        invariant
            from <= a <= to <= chars@.len(),
            trim_start(chars@.subrange(a as int, to as int)) == trim_start(whole),
        decreases to - a,
    {
        assert(chars@.subrange(a as int, to as int).drop_first() =~= chars@.subrange(
            a + 1,
            to as int,
        ));
        a = a + 1;
    }
    let ghost front = chars@.subrange(a as int, to as int);
    assert(trim_start(whole) == front);
    let mut b: usize = to;
    while a < b && is_white_space(chars[b - 1])
        invariant
            from <= a <= b <= to <= chars@.len(),
            trim_end(chars@.subrange(a as int, b as int)) == trim_end(front),
        decreases b - a,
    {
        assert(chars@.subrange(a as int, b as int).drop_last() =~= chars@.subrange(
            a as int,
            b - 1,
        ));
        b = b - 1;
    }
    (a, b)
}

/// `s` without the white space around it.
pub fn trimmed(s: &str) -> (r: String)
    ensures
        r@ == trim(s@),
{
    let chars = chars_of(s);
    let bounds = trim_bounds(&chars, 0, chars.len());
    assert(chars@.subrange(0, chars@.len() as int) =~= s@);
    text_between(&chars, bounds.0, bounds.1)
}

// ---------------------------------------------------------------------------
// Splitting
// ---------------------------------------------------------------------------

/// The position of the first `c` in `s`, and the length of `s` where it holds none.
pub open spec fn find(s: Seq<char>, c: char) -> int
    decreases s.len(),
{
    if s.len() == 0 || s[0] == c {
        0
    } else {
        1 + find(s.drop_first(), c)
    }
}

pub proof fn lemma_find(s: Seq<char>, c: char)
    ensures
        0 <= find(s, c) <= s.len(),
        forall|i: int| 0 <= i < find(s, c) ==> s[i] != c,
        find(s, c) < s.len() ==> s[find(s, c)] == c,
        s.contains(c) <==> find(s, c) < s.len(),
    decreases s.len(),
{
    if s.len() == 0 || s[0] == c {
    } else {
        lemma_find(s.drop_first(), c);
        let k = find(s.drop_first(), c);
        assert forall|i: int| 0 <= i < find(s, c) implies s[i] != c by {
            if i > 0 {
                assert(s.drop_first()[i - 1] == s[i]);
            }
        }
        if find(s, c) < s.len() {
            assert(s[k + 1] == s.drop_first()[k]);
        }
    }
}

/// The pieces of `s` between the occurrences of `c`: one more than there are
/// occurrences.
pub open spec fn split(s: Seq<char>, c: char) -> Seq<Seq<char>>
    decreases s.len(),
{
    let i = find(s, c);
    if 0 <= i < s.len() {
        seq![s.take(i)] + split(s.skip(i + 1), c)
    } else {
        seq![s]
    }
}

/// The position of the first `c` at or after `from`.
pub fn find_from(chars: &Vec<char>, from: usize, c: char) -> (r: usize)
    requires
        from <= chars@.len(),
    ensures
        from <= r <= chars@.len(),
        r - from == find(chars@.skip(from as int), c),
{
    let mut i: usize = from;
    while i < chars.len() && chars[i] != c
        invariant
            from <= i <= chars@.len(),
            (i - from) + find(chars@.skip(i as int), c) == find(chars@.skip(from as int), c),
        decreases chars@.len() - i,
    {
        assert(chars@.skip(i as int).drop_first() =~= chars@.skip(i + 1));
        i = i + 1;
    }
    i
}

/// The pieces of `value` between the occurrences of `c`.
pub fn pieces(value: &str, c: char) -> (r: Vec<String>)
    ensures
        r.deep_view() == split(value@, c),
{
    let chars = chars_of(value);
    let mut out: Vec<String> = Vec::new();
    let mut from: usize = 0;
    assert(chars@.skip(0) =~= value@);
    loop
        invariant
            chars@ == value@,
            from <= chars@.len(),
            out.deep_view() + split(chars@.skip(from as int), c) =~= split(value@, c),
        decreases chars@.len() - from,
    {
        let at: usize = find_from(&chars, from, c);
        let ghost rest = chars@.skip(from as int);
        let ghost before = out.deep_view();
        let piece = text_between(&chars, from, at);
        assert(piece@ =~= rest.take(at - from));
        out.push(piece);
        assert(out.deep_view() =~= before.push(piece@));
        if at == chars.len() {
            assert(rest.take(at - from) =~= rest);
            return out;
        }
        assert(rest.skip(at - from + 1) =~= chars@.skip(at + 1));
        from = at + 1;
    }
}

/// The pieces of a comma-separated list, each trimmed, without those that are
/// then empty.
pub open spec fn csv_parts(s: Seq<char>) -> Seq<Seq<char>> {
    trimmed_nonempty(split(s, ','))
}

/// Each of `parts` trimmed, without those that are then empty.
pub open spec fn trimmed_nonempty(parts: Seq<Seq<char>>) -> Seq<Seq<char>>
    decreases parts.len(),
{
    if parts.len() == 0 {
        seq![]
    } else {
        let head = trimmed_nonempty(parts.drop_last());
        let last = trim(parts.last());
        if last.len() > 0 {
            head.push(last)
        } else {
            head
        }
    }
}

/// The values of a comma-separated list.
pub fn split_csv(value: &str) -> (r: Vec<String>)
    ensures
        r.deep_view() == csv_parts(value@),
{
    let parts = pieces(value, ',');
    let mut out: Vec<String> = Vec::new();
    let mut i: usize = 0;
    while i < parts.len()
        invariant
            i <= parts@.len(),
            parts.deep_view() == split(value@, ','),
            out.deep_view() == trimmed_nonempty(parts.deep_view().take(i as int)),
        decreases parts@.len() - i,
    {
        let ghost before = out.deep_view();
        let part = trimmed(parts[i].as_str());
        assert(parts.deep_view().take(i + 1).drop_last() =~= parts.deep_view().take(i as int));
        assert(parts.deep_view()[i as int] == parts@[i as int]@);
        if !part.as_str().is_empty() {
            out.push(part);
            assert(out.deep_view() =~= before.push(part@));
        }
        i = i + 1;
    }
    assert(parts.deep_view().take(i as int) =~= parts.deep_view());
    out
}

// ---------------------------------------------------------------------------
// Lines and words
// ---------------------------------------------------------------------------

/// A line without the carriage return that stands before its line feed.
pub open spec fn without_cr(s: Seq<char>) -> Seq<char> {
    if s.len() > 0 && s.last() == '\r' {
        s.drop_last()
    } else {
        s
    }
}

/// The lines of a text. A line ends with a line feed or with a carriage return
/// and a line feed; the last one may lack its ending, and then keeps a carriage
/// return.
pub open spec fn lines(s: Seq<char>) -> Seq<Seq<char>>
    decreases s.len(),
{
    let i = find(s, '\n');
    if s.len() == 0 {
        seq![]
    } else if 0 <= i < s.len() {
        seq![without_cr(s.take(i))] + lines(s.skip(i + 1))
    } else {
        seq![s]
    }
}

/// The lines of a text.
pub fn text_lines(value: &str) -> (r: Vec<String>)
    ensures
        r.deep_view() == lines(value@),
{
    let chars = chars_of(value);
    let mut out: Vec<String> = Vec::new();
    let mut from: usize = 0;
    assert(chars@.skip(0) =~= value@);
    while from < chars.len()
        invariant
            chars@ == value@,
            from <= chars@.len(),
            out.deep_view() + lines(chars@.skip(from as int)) =~= lines(value@),
        decreases chars@.len() - from,
    {
        let at: usize = find_from(&chars, from, '\n');
        let ghost rest = chars@.skip(from as int);
        let ghost before = out.deep_view();
        if at == chars.len() {
            let line = text_between(&chars, from, at);
            assert(line@ =~= rest);
            out.push(line);
            assert(out.deep_view() =~= before.push(line@));
            from = at;
            assert(lines(chars@.skip(from as int)) =~= seq![]);
        } else {
            let mut end: usize = at;
            if from < end && chars[end - 1] == '\r' {
                end = end - 1;
            }
            let line = text_between(&chars, from, end);
            assert(line@ =~= without_cr(rest.take(at - from)));
            out.push(line);
            assert(out.deep_view() =~= before.push(line@));
            assert(rest.skip(at - from + 1) =~= chars@.skip(at + 1));
            from = at + 1;
        }
    }
    assert(lines(chars@.skip(from as int)) =~= seq![]);
    out
}

/// How many characters `s` starts with that are not white space.
pub open spec fn word_length(s: Seq<char>) -> int
    decreases s.len(),
{
    if s.len() == 0 || white_space(s[0]) {
        0
    } else {
        1 + word_length(s.drop_first())
    }
}

pub proof fn lemma_word_length(s: Seq<char>)
    ensures
        0 <= word_length(s) <= s.len(),
        s.len() > 0 && !white_space(s[0]) ==> word_length(s) > 0,
    decreases s.len(),
{
    if s.len() == 0 || white_space(s[0]) {
    } else {
        lemma_word_length(s.drop_first());
    }
}

pub proof fn lemma_trim_start(s: Seq<char>)
    ensures
        trim_start(s).len() <= s.len(),
        trim_start(s).len() > 0 ==> !white_space(trim_start(s)[0]),
    decreases s.len(),
{
    if s.len() > 0 && white_space(s[0]) {
        lemma_trim_start(s.drop_first());
    }
}

/// The words of a text: what stands between runs of white space.
pub open spec fn words(s: Seq<char>) -> Seq<Seq<char>>
    decreases s.len(),
{
    let t = trim_start(s);
    let n = word_length(t);
    if 0 < n <= t.len() <= s.len() {
        seq![t.take(n)] + words(t.skip(n))
    } else {
        seq![]
    }
}

/// The words of a text.
pub fn text_words(value: &str) -> (r: Vec<String>)
    ensures
        r.deep_view() == words(value@),
{
    let chars = chars_of(value);
    let mut out: Vec<String> = Vec::new();
    let mut from: usize = 0;
    assert(chars@.skip(0) =~= value@);
    loop
        invariant
            chars@ == value@,
            from <= chars@.len(),
            out.deep_view() + words(chars@.skip(from as int)) =~= words(value@),
        decreases chars@.len() - from,
    {
        let ghost rest = chars@.skip(from as int);
        let ghost before = out.deep_view();
        let mut a: usize = from;
        while a < chars.len() && is_white_space(chars[a])
            invariant
                from <= a <= chars@.len(),
                trim_start(chars@.skip(a as int)) == trim_start(rest),
            decreases chars@.len() - a,
        {
            assert(chars@.skip(a as int).drop_first() =~= chars@.skip(a + 1));
            a = a + 1;
        }
        let ghost t = chars@.skip(a as int);
        assert(trim_start(rest) == t);
        let mut b: usize = a;
        while b < chars.len() && !is_white_space(chars[b])
            invariant
                a <= b <= chars@.len(),
                (b - a) + word_length(chars@.skip(b as int)) == word_length(t),
            decreases chars@.len() - b,
        {
            assert(chars@.skip(b as int).drop_first() =~= chars@.skip(b + 1));
            b = b + 1;
        }
        if a == b {
            return out;
        }
        let word = text_between(&chars, a, b);
        assert(word@ =~= t.take(b - a));
        out.push(word);
        assert(out.deep_view() =~= before.push(word@));
        assert(t.skip(b - a) =~= chars@.skip(b as int));
        from = b;
    }
}

// ---------------------------------------------------------------------------
// Searching and cutting
// ---------------------------------------------------------------------------

/// Whether `part` stands in `s` at position `i`.
pub open spec fn stands_at(s: Seq<char>, part: Seq<char>, i: int) -> bool {
    &&& 0 <= i
    &&& i + part.len() <= s.len()
    &&& s.subrange(i, i + part.len()) == part
}

/// Whether `part` stands somewhere in `s`.
pub open spec fn has_part(s: Seq<char>, part: Seq<char>) -> bool {
    exists|i: int| stands_at(s, part, i)
}

/// Whether `part` stands in `chars` at position `at`.
pub fn matches_at(chars: &Vec<char>, part: &Vec<char>, at: usize) -> (r: bool)
    ensures
        r == stands_at(chars@, part@, at as int),
{
    if at > chars.len() || chars.len() - at < part.len() {
        return false;
    }
    let mut j: usize = 0;
    while j < part.len()
        invariant
            at + part.len() <= chars.len(),
            j <= part@.len(),
            forall|k: int| 0 <= k < j ==> chars@[at + k] == part@[k],
        decreases part@.len() - j,
    {
        if chars[at + j] != part[j] {
            assert(chars@.subrange(at as int, at + part@.len())[j as int] != part@[j as int]);
            return false;
        }
        j = j + 1;
    }
    assert(chars@.subrange(at as int, at + part@.len()) =~= part@);
    true
}

/// Whether `part` stands somewhere in `value`.
pub fn contains_text(value: &str, part: &str) -> (r: bool)
    ensures
        r == has_part(value@, part@),
{
    let chars = chars_of(value);
    let wanted = chars_of(part);
    let mut i: usize = 0;
    while i < chars.len()
        invariant
            chars@ == value@,
            wanted@ == part@,
            i <= chars@.len(),
            forall|k: int| 0 <= k < i ==> !stands_at(value@, part@, k),
        decreases chars@.len() - i,
    {
        if matches_at(&chars, &wanted, i) {
            return true;
        }
        i = i + 1;
    }
    matches_at(&chars, &wanted, i)
}

/// The position of the last `c` in `s`, and -1 where it holds none.
pub open spec fn find_last(s: Seq<char>, c: char) -> int
    decreases s.len(),
{
    if s.len() == 0 {
        -1
    } else if s.last() == c {
        s.len() - 1
    } else {
        find_last(s.drop_last(), c)
    }
}

/// The position behind the last `c` in `chars`, and 0 where it holds none.
pub fn after_last(chars: &Vec<char>, c: char) -> (r: usize)
    ensures
        r <= chars@.len(),
        r == find_last(chars@, c) + 1,
{
    let mut i: usize = chars.len();
    assert(chars@.take(i as int) =~= chars@);
    while i > 0 && chars[i - 1] != c
        invariant
            i <= chars@.len(),
            find_last(chars@.take(i as int), c) == find_last(chars@, c),
        decreases i,
    {
        assert(chars@.take(i as int).drop_last() =~= chars@.take(i - 1));
        i = i - 1;
    }
    i
}

/// `s` without every `c` that it ends with.
pub open spec fn trim_end_of(s: Seq<char>, c: char) -> Seq<char>
    decreases s.len(),
{
    if s.len() > 0 && s.last() == c {
        trim_end_of(s.drop_last(), c)
    } else {
        s
    }
}

/// `value` without every `c` that it ends with.
pub fn without_trailing(value: &str, c: char) -> (r: String)
    ensures
        r@ == trim_end_of(value@, c),
{
    let chars = chars_of(value);
    let mut i: usize = chars.len();
    assert(chars@.take(i as int) =~= chars@);
    while i > 0 && chars[i - 1] == c
        invariant
            chars@ == value@,
            i <= chars@.len(),
            trim_end_of(chars@.take(i as int), c) == trim_end_of(value@, c),
        decreases i,
    {
        assert(chars@.take(i as int).drop_last() =~= chars@.take(i - 1));
        i = i - 1;
    }
    let r = text_between(&chars, 0, i);
    assert(r@ =~= chars@.take(i as int));
    r
}

// ---------------------------------------------------------------------------
// Joining
// ---------------------------------------------------------------------------

/// The texts of `fields`, with a comma between them.
pub open spec fn comma_joined(fields: Seq<Seq<char>>) -> Seq<char>
    decreases fields.len(),
{
    if fields.len() == 0 {
        seq![]
    } else if fields.len() == 1 {
        fields[0]
    } else {
        comma_joined(fields.drop_last()).push(',') + fields.last()
    }
}

/// The texts of `fields`, with a comma between them.
pub fn join_commas(fields: &Vec<String>) -> (r: String)
    ensures
        r@ == comma_joined(fields.deep_view()),
{
    let mut out = String::new();
    let ghost all = fields.deep_view();
    let mut i: usize = 0;
    while i < fields.len()
        invariant
            all == fields.deep_view(),
            i <= fields@.len(),
            out@ == comma_joined(all.take(i as int)),
        decreases fields@.len() - i,
    {
        assert(all.take(i + 1).drop_last() =~= all.take(i as int));
        assert(all[i as int] == fields@[i as int]@);
        if i > 0 {
            out.push(',');
        }
        let ghost before = out@;
        out.append(fields[i].as_str());
        assert(i == 0 ==> out@ =~= all[0]);
        i = i + 1;
    }
    assert(all.take(i as int) =~= all);
    out
}

// ---------------------------------------------------------------------------
// What cutting and joining undo
// ---------------------------------------------------------------------------

/// Whether all characters of a text are white space.
pub open spec fn all_white(s: Seq<char>) -> bool {
    forall|i: int| 0 <= i < s.len() ==> white_space(#[trigger] s[i])
}

/// Whether no character of a text is white space.
pub open spec fn none_white(s: Seq<char>) -> bool {
    forall|i: int| 0 <= i < s.len() ==> !white_space(#[trigger] s[i])
}

/// The first occurrence is the one that no other comes before.
pub proof fn law_first_occurrence(s: Seq<char>, c: char, i: int)
    requires
        0 <= i < s.len(),
        s[i] == c,
        !s.take(i).contains(c),
    ensures
        find(s, c) == i,
{
    lemma_find(s, c);
    let k = find(s, c);
    assert(s.contains(c));
    if k < i {
        assert(s.take(i)[k] == c);
    }
}

/// A text without the separator is one piece: itself.
pub proof fn law_split_plain(s: Seq<char>, c: char)
    requires
        !s.contains(c),
    ensures
        split(s, c) == seq![s],
{
    lemma_find(s, c);
}

/// What stands before a separator and what stands behind it are cut apart each on its
/// own.
pub proof fn law_split_concat(x: Seq<char>, y: Seq<char>, c: char)
    ensures
        split(x.push(c) + y, c) == split(x, c) + split(y, c),
    decreases x.len(),
{
    let s = x.push(c) + y;
    if x.contains(c) {
        lemma_find(x, c);
        let i = find(x, c);
        assert(s[i] == c);
        assert(s.take(i) =~= x.take(i));
        law_first_occurrence(s, c, i);
        let rest = x.skip(i + 1);
        assert(s.skip(i + 1) =~= rest.push(c) + y);
        law_split_concat(rest, y, c);
        assert(split(s, c) =~= split(x, c) + split(y, c));
    } else {
        law_split_plain(x, c);
        let i = x.len() as int;
        assert(s.take(i) =~= x);
        law_first_occurrence(s, c, i);
        assert(s.skip(i + 1) =~= y);
    }
}

/// The pieces with the separator between them.
pub open spec fn joined(pieces: Seq<Seq<char>>, c: char) -> Seq<char>
    decreases pieces.len(),
{
    if pieces.len() == 0 {
        seq![]
    } else if pieces.len() == 1 {
        pieces[0]
    } else {
        pieces[0].push(c) + joined(pieces.drop_first(), c)
    }
}

/// Cutting loses nothing: the pieces, none of which holds the separator, make the text
/// again when they are joined.
pub proof fn law_split_joins(s: Seq<char>, c: char)
    ensures
        split(s, c).len() > 0,
        joined(split(s, c), c) == s,
        forall|i: int| 0 <= i < split(s, c).len() ==> !(#[trigger] split(s, c)[i]).contains(c),
    decreases s.len(),
{
    lemma_find(s, c);
    let i = find(s, c);
    if i < s.len() {
        let head = s.take(i);
        let tail = s.skip(i + 1);
        law_split_joins(tail, c);
        let all = split(s, c);
        assert(all =~= seq![head] + split(tail, c));
        assert(all.drop_first() =~= split(tail, c));
        assert(s =~= head.push(c) + tail);
        assert(!head.contains(c));
        assert forall|k: int| 0 <= k < all.len() implies !(#[trigger] all[k]).contains(c) by {
            if k > 0 {
                assert(all[k] == split(tail, c)[k - 1]);
            }
        }
    }
}

/// Texts without the separator come out of what they were joined to.
pub proof fn law_join_splits(pieces: Seq<Seq<char>>, c: char)
    requires
        pieces.len() > 0,
        forall|i: int| 0 <= i < pieces.len() ==> !(#[trigger] pieces[i]).contains(c),
    ensures
        split(joined(pieces, c), c) == pieces,
    decreases pieces.len(),
{
    law_split_plain(pieces[0], c);
    if pieces.len() > 1 {
        let rest = pieces.drop_first();
        assert forall|i: int| 0 <= i < rest.len() implies !(#[trigger] rest[i]).contains(c) by {
            assert(rest[i] == pieces[i + 1]);
        }
        law_join_splits(rest, c);
        law_split_concat(pieces[0], joined(rest, c), c);
    }
    assert(split(joined(pieces, c), c) =~= pieces);
}

proof fn lemma_joined_push(pieces: Seq<Seq<char>>, last: Seq<char>, c: char)
    requires
        pieces.len() > 0,
    ensures
        joined(pieces.push(last), c) == joined(pieces, c).push(c) + last,
    decreases pieces.len(),
{
    let more = pieces.push(last);
    assert(more.drop_first() =~= pieces.drop_first().push(last));
    if pieces.len() > 1 {
        lemma_joined_push(pieces.drop_first(), last, c);
        assert(joined(more, c) =~= joined(pieces, c).push(c) + last);
    } else {
        assert(more.drop_first() =~= seq![last]);
        assert(joined(more.drop_first(), c) == last);
        assert(joined(pieces, c) == more[0]);
        assert(joined(more, c) =~= joined(pieces, c).push(c) + last);
    }
}

/// The fields of a line that is written with commas are read back from it, where none of
/// them holds one.
pub proof fn law_commas_read_back(fields: Seq<Seq<char>>)
    requires
        fields.len() > 0,
        forall|i: int| 0 <= i < fields.len() ==> !(#[trigger] fields[i]).contains(','),
    ensures
        split(comma_joined(fields), ',') == fields,
{
    lemma_comma_joined(fields);
    law_join_splits(fields, ',');
}

proof fn lemma_comma_joined(fields: Seq<Seq<char>>)
    requires
        fields.len() > 0,
    ensures
        comma_joined(fields) == joined(fields, ','),
    decreases fields.len(),
{
    if fields.len() > 1 {
        lemma_comma_joined(fields.drop_last());
        assert(fields =~= fields.drop_last().push(fields.last()));
        lemma_joined_push(fields.drop_last(), fields.last(), ',');
    }
}

/// Trimming takes white space off both ends and nothing else: the text is what is left
/// with white space around it, and what is left neither starts nor ends with any.
pub proof fn law_trim(s: Seq<char>)
    ensures
        exists|before: Seq<char>, after: Seq<char>|
            all_white(before) && all_white(after) && s == #[trigger] (before + trim(s) + after),
        trim(s).len() > 0 ==> !white_space(trim(s)[0]) && !white_space(trim(s).last()),
{
    let front = trim_start(s);
    let before = lemma_trim_start_parts(s);
    let after = lemma_trim_end_parts(front);
    assert(s =~= before + trim(s) + after);
    if trim(s).len() > 0 {
        assert(trim(s)[0] == front[0]);
    }
}

proof fn lemma_trim_start_parts(s: Seq<char>) -> (before: Seq<char>)
    ensures
        all_white(before),
        s == before + trim_start(s),
        trim_start(s).len() > 0 ==> !white_space(trim_start(s)[0]),
    decreases s.len(),
{
    if s.len() > 0 && white_space(s[0]) {
        let rest = lemma_trim_start_parts(s.drop_first());
        let before = seq![s[0]] + rest;
        assert(s =~= seq![s[0]] + s.drop_first());
        assert(s =~= before + trim_start(s));
        assert forall|i: int| 0 <= i < before.len() implies white_space(#[trigger] before[i]) by {
            if i > 0 {
                assert(before[i] == rest[i - 1]);
            }
        }
        before
    } else {
        assert(s =~= Seq::<char>::empty() + trim_start(s));
        Seq::empty()
    }
}

proof fn lemma_trim_end_parts(s: Seq<char>) -> (after: Seq<char>)
    ensures
        all_white(after),
        s == trim_end(s) + after,
        trim_end(s).len() > 0 ==> !white_space(trim_end(s).last()),
    decreases s.len(),
{
    if s.len() > 0 && white_space(s.last()) {
        let rest = lemma_trim_end_parts(s.drop_last());
        let after = rest.push(s.last());
        assert(s =~= s.drop_last().push(s.last()));
        assert(s =~= trim_end(s) + after);
        assert forall|i: int| 0 <= i < after.len() implies white_space(#[trigger] after[i]) by {
            if i < rest.len() {
                assert(after[i] == rest[i]);
            }
        }
        after
    } else {
        assert(s =~= trim_end(s) + Seq::<char>::empty());
        Seq::empty()
    }
}

/// White space around a text does not matter, and a text that neither starts nor ends
/// with any is kept.
pub proof fn law_trim_ignores_white(before: Seq<char>, s: Seq<char>, after: Seq<char>)
    requires
        all_white(before),
        all_white(after),
        s.len() > 0 ==> !white_space(s[0]) && !white_space(s.last()),
    ensures
        trim(before + s + after) == s,
{
    let whole = before + s + after;
    if s.len() == 0 {
        assert(all_white(whole)) by {
            assert forall|i: int| 0 <= i < whole.len() implies white_space(#[trigger] whole[i]) by {
                if i < before.len() {
                    assert(whole[i] == before[i]);
                } else {
                    assert(whole[i] == after[i - before.len()]);
                }
            }
        }
        lemma_trim_start_white(whole, Seq::empty());
        assert(whole + Seq::<char>::empty() =~= whole);
        assert(trim_start(Seq::<char>::empty()) =~= Seq::<char>::empty());
        assert(s =~= Seq::<char>::empty());
    } else {
        assert(whole =~= before + (s + after));
        lemma_trim_start_white(before, s + after);
        assert((s + after)[0] == s[0]);
        lemma_trim_end_white(s, after);
    }
}

proof fn lemma_trim_start_white(before: Seq<char>, s: Seq<char>)
    requires
        all_white(before),
    ensures
        trim_start(before + s) == trim_start(s),
    decreases before.len(),
{
    if before.len() == 0 {
        assert(before + s =~= s);
    } else {
        let rest = before.drop_first();
        assert forall|i: int| 0 <= i < rest.len() implies white_space(#[trigger] rest[i]) by {
            assert(rest[i] == before[i + 1]);
        }
        assert((before + s)[0] == before[0]);
        assert((before + s).drop_first() =~= rest + s);
        lemma_trim_start_white(rest, s);
    }
}

proof fn lemma_trim_end_white(s: Seq<char>, after: Seq<char>)
    requires
        all_white(after),
    ensures
        trim_end(s + after) == trim_end(s),
    decreases after.len(),
{
    if after.len() == 0 {
        assert(s + after =~= s);
    } else {
        let rest = after.drop_last();
        assert forall|i: int| 0 <= i < rest.len() implies white_space(#[trigger] rest[i]) by {
            assert(rest[i] == after[i]);
        }
        assert((s + after).last() == after[after.len() - 1]);
        assert((s + after).drop_last() =~= s + rest);
        lemma_trim_end_white(s, rest);
    }
}

/// The parts of a list are its pieces between commas, trimmed, in their order, without
/// those of which nothing is left.
pub proof fn law_csv_parts(s: Seq<char>)
    ensures
        csv_parts(s) == split(s, ',').map_values(|piece: Seq<char>| trim(piece)).filter(
            |part: Seq<char>| part.len() > 0,
        ),
{
    lemma_trimmed_nonempty(split(s, ','));
}

proof fn lemma_trimmed_nonempty(parts: Seq<Seq<char>>)
    ensures
        trimmed_nonempty(parts) == parts.map_values(|piece: Seq<char>| trim(piece)).filter(
            |part: Seq<char>| part.len() > 0,
        ),
    decreases parts.len(),
{
    reveal(Seq::filter);
    let mapped = parts.map_values(|piece: Seq<char>| trim(piece));
    if parts.len() > 0 {
        lemma_trimmed_nonempty(parts.drop_last());
        assert(mapped.drop_last() =~= parts.drop_last().map_values(
            |piece: Seq<char>| trim(piece),
        ));
    } else {
        assert(mapped =~= seq![]);
    }
}

/// Two lists with a comma between them are one list: its parts are those of the first and
/// then those of the second.
pub proof fn law_csv_concat(x: Seq<char>, y: Seq<char>)
    ensures
        csv_parts(x.push(',') + y) == csv_parts(x) + csv_parts(y),
{
    law_csv_parts(x.push(',') + y);
    law_csv_parts(x);
    law_csv_parts(y);
    law_split_concat(x, y, ',');
    let f = |piece: Seq<char>| trim(piece);
    let keep = |part: Seq<char>| part.len() > 0;
    let (a, b) = (split(x, ','), split(y, ','));
    assert((a + b).map_values(f) =~= a.map_values(f) + b.map_values(f));
    Seq::filter_distributes_over_add(a.map_values(f), b.map_values(f), keep);
}

/// A part of a list that stands alone is the text without the white space around it.
pub proof fn law_csv_single(s: Seq<char>)
    requires
        !s.contains(','),
    ensures
        csv_parts(s) == if trim(s).len() > 0 {
            seq![trim(s)]
        } else {
            Seq::<Seq<char>>::empty()
        },
{
    law_split_plain(s, ',');
    reveal_with_fuel(trimmed_nonempty, 2);
    assert(split(s, ',').drop_last() =~= seq![]);
    assert(csv_parts(s) =~= if trim(s).len() > 0 {
        seq![trim(s)]
    } else {
        Seq::<Seq<char>>::empty()
    });
}

/// The lines of a text that ends with a line feed and of what follows it are those of the
/// two, one after the other.
pub proof fn law_lines_concat(x: Seq<char>, y: Seq<char>)
    ensures
        lines(x.push('\n') + y) == lines(x.push('\n')) + lines(y),
    decreases x.len(),
{
    let s = x.push('\n') + y;
    let t = x.push('\n');
    if x.contains('\n') {
        lemma_find(x, '\n');
        let i = find(x, '\n');
        assert(s[i] == '\n' && t[i] == '\n');
        assert(s.take(i) =~= x.take(i));
        assert(t.take(i) =~= x.take(i));
        law_first_occurrence(s, '\n', i);
        law_first_occurrence(t, '\n', i);
        let rest = x.skip(i + 1);
        assert(s.skip(i + 1) =~= rest.push('\n') + y);
        assert(t.skip(i + 1) =~= rest.push('\n'));
        law_lines_concat(rest, y);
        assert(lines(s) =~= lines(t) + lines(y));
    } else {
        let i = x.len() as int;
        assert(s.take(i) =~= x);
        assert(t.take(i) =~= x);
        law_first_occurrence(s, '\n', i);
        law_first_occurrence(t, '\n', i);
        assert(s.skip(i + 1) =~= y);
        assert(t.skip(i + 1) =~= seq![]);
        assert(lines(t.skip(i + 1)) =~= seq![]);
        assert(lines(s) =~= lines(t) + lines(y));
    }
}

/// A line is what stands before its line feed, without a carriage return there; what ends
/// without a line feed is a line as it is, and nothing is no line.
pub proof fn law_single_line(s: Seq<char>)
    requires
        !s.contains('\n'),
    ensures
        s.len() > 0 ==> lines(s) == seq![s],
        s.len() == 0 ==> lines(s).len() == 0,
        !(s.len() > 0 && s.last() == '\r') ==> lines(s.push('\n')) == seq![s],
        lines(s.push('\r').push('\n')) == seq![s],
{
    lemma_find(s, '\n');
    let t = s.push('\n');
    assert(t.take(s.len() as int) =~= s);
    law_first_occurrence(t, '\n', s.len() as int);
    assert(t.skip(s.len() as int + 1) =~= seq![]);
    assert(lines(t.skip(s.len() as int + 1)) =~= seq![]);
    assert(lines(t) =~= seq![without_cr(s)]);
    let v = s.push('\r');
    let w = v.push('\n');
    assert(w.take(v.len() as int) =~= v);
    assert(!v.contains('\n')) by {
        if v.contains('\n') {
            let k = choose|k: int| 0 <= k < v.len() && v[k] == '\n';
            assert(s[k] == '\n');
        }
    }
    law_first_occurrence(w, '\n', v.len() as int);
    assert(w.skip(v.len() as int + 1) =~= seq![]);
    assert(lines(w.skip(v.len() as int + 1)) =~= seq![]);
    assert(without_cr(v) =~= s);
    assert(lines(w) =~= seq![s]);
}

proof fn lemma_word_length_is(s: Seq<char>, n: int)
    requires
        0 <= n <= s.len(),
        none_white(s.take(n)),
        n < s.len() ==> white_space(s[n]),
    ensures
        word_length(s) == n,
    decreases s.len(),
{
    if n == 0 {
    } else {
        assert(s.take(n)[0] == s[0]);
        let rest = s.drop_first();
        assert(rest.take(n - 1) =~= s.take(n).drop_first());
        assert forall|i: int| 0 <= i < n - 1 implies !white_space(
            #[trigger] rest.take(n - 1)[i],
        ) by {
            assert(rest.take(n - 1)[i] == s.take(n)[i + 1]);
        }
        lemma_word_length_is(rest, n - 1);
    }
}

/// Words are what stands between white space: a text of white space has none, and the
/// words of a text that starts with white space, a word, and white space or the end, are
/// that word and the words behind it.
pub proof fn law_words(before: Seq<char>, word: Seq<char>, rest: Seq<char>)
    requires
        all_white(before),
        none_white(word),
        word.len() > 0,
        rest.len() > 0 ==> white_space(rest[0]),
    ensures
        words(before) == Seq::<Seq<char>>::empty(),
        words(before + word + rest) == seq![word] + words(rest),
{
    lemma_trim_start_white(before, Seq::empty());
    assert(before + Seq::<char>::empty() =~= before);
    assert(words(before) =~= Seq::<Seq<char>>::empty());
    let s = before + word + rest;
    let t = word + rest;
    assert(s =~= before + t);
    lemma_trim_start_white(before, t);
    assert(t[0] == word[0]);
    let n = word.len() as int;
    assert(t.take(n) =~= word);
    assert(n < t.len() ==> t[n] == rest[0]);
    lemma_word_length_is(t, n);
    assert(t.skip(n) =~= rest);
    assert(words(s) =~= seq![word] + words(rest));
}

/// The last occurrence is the one that no other comes behind.
pub proof fn law_last_occurrence(s: Seq<char>, c: char)
    ensures
        -1 <= find_last(s, c) < s.len(),
        find_last(s, c) >= 0 ==> s[find_last(s, c)] == c,
        forall|i: int| find_last(s, c) < i < s.len() ==> s[i] != c,
    decreases s.len(),
{
    if s.len() > 0 && s.last() != c {
        law_last_occurrence(s.drop_last(), c);
        assert forall|i: int| find_last(s, c) < i < s.len() implies s[i] != c by {
            if i < s.len() - 1 {
                assert(s.drop_last()[i] == s[i]);
            }
        }
    }
}

/// Taking a character off the end takes all of them and nothing else.
pub proof fn law_trim_end_of(s: Seq<char>, c: char)
    ensures
        trim_end_of(s, c).len() <= s.len(),
        trim_end_of(s, c) == s.take(trim_end_of(s, c).len() as int),
        trim_end_of(s, c).len() > 0 ==> trim_end_of(s, c).last() != c,
        forall|i: int| trim_end_of(s, c).len() <= i < s.len() ==> s[i] == c,
    decreases s.len(),
{
    if s.len() > 0 && s.last() == c {
        let rest = s.drop_last();
        law_trim_end_of(rest, c);
        let r = trim_end_of(s, c);
        assert(rest.take(r.len() as int) =~= s.take(r.len() as int));
        assert forall|i: int| r.len() <= i < s.len() implies s[i] == c by {
            if i < rest.len() {
                assert(rest[i] == s[i]);
            }
        }
    } else {
        assert(s.take(s.len() as int) =~= s);
    }
}

/// A part stands in a text exactly when the text is something, the part, and something.
pub proof fn law_has_part(before: Seq<char>, part: Seq<char>, after: Seq<char>, s: Seq<char>)
    ensures
        has_part(before + part + after, part),
        has_part(s, part) ==> exists|a: Seq<char>, b: Seq<char>| s == #[trigger] (a + part + b),
{
    let whole = before + part + after;
    let i = before.len() as int;
    assert(whole.subrange(i, i + part.len()) =~= part);
    assert(stands_at(whole, part, i));
    if has_part(s, part) {
        let i = choose|i: int| stands_at(s, part, i);
        let a = s.take(i);
        let b = s.skip(i + part.len());
        assert(s =~= a + part + b);
    }
}

/// Which characters are white space: of those below 128 the space and the five from the tab to
/// the carriage return, and of the others the spaces and separators that Unicode lists.
pub proof fn law_white_space(c: char)
    ensures
        (c as u32) < 128 ==> (white_space(c) <==> c == ' ' || c == '\t' || c == '\n' || c as u32
            == 11 || c as u32 == 12 || c == '\r'),
        (c as u32) >= 128 ==> (white_space(c) <==> c as u32 == 0x85 || c as u32 == 0xa0 || c as u32
            == 0x1680 || 0x2000 <= c as u32 <= 0x200a || c as u32 == 0x2028 || c as u32 == 0x2029
            || c as u32 == 0x202f || c as u32 == 0x205f || c as u32 == 0x3000),
{
}

} // verus!
