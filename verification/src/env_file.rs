//! Build-time settings in an environment file: one `KEY=VALUE` on each line.
//!
//! White space around lines, keys and values is ignored, and so are blank lines and lines that
//! start with `#`.

use vstd::prelude::*;

verus! {

/// Whether a character counts as white space: the Unicode property of that name.
pub open spec fn white(c: char) -> bool {
    ||| '\u{9}' <= c <= '\u{d}'
    ||| c == ' '
    ||| c == '\u{85}'
    ||| c == '\u{a0}'
    ||| c == '\u{1680}'
    ||| '\u{2000}' <= c <= '\u{200a}'
    ||| c == '\u{2028}'
    ||| c == '\u{2029}'
    ||| c == '\u{202f}'
    ||| c == '\u{205f}'
    ||| c == '\u{3000}'
}

/// `s` without the white space at its start.
pub open spec fn trim_start(s: Seq<char>) -> Seq<char>
    decreases s.len(),
{
    if s.len() > 0 && white(s[0]) {
        trim_start(s.drop_first())
    } else {
        s
    }
}

/// `s` without the white space at its end.
pub open spec fn trim_end(s: Seq<char>) -> Seq<char>
    decreases s.len(),
{
    if s.len() > 0 && white(s.last()) {
        trim_end(s.drop_last())
    } else {
        s
    }
}

/// `s` without the white space around it.
pub open spec fn trim(s: Seq<char>) -> Seq<char> {
    trim_end(trim_start(s))
}

/// Where `c` first stands in `s`, or the length of `s` if it does not.
pub open spec fn position(s: Seq<char>, c: char) -> int
    decreases s.len(),
{
    if s.len() == 0 || s[0] == c {
        0
    } else {
        1 + position(s.drop_first(), c)
    }
}

/// What a line sets: a key and its value, split at the first `=`, or nothing.
pub open spec fn setting(line: Seq<char>) -> Option<(Seq<char>, Seq<char>)> {
    let text = trim(line);
    let at = position(text, '=');
    if text.len() == 0 || text[0] == '#' || at == text.len() {
        None
    } else {
        Some((trim(text.take(at)), trim(text.skip(at + 1))))
    }
}

/// What a file sets, line by line.
pub open spec fn settings(contents: Seq<char>) -> Seq<(Seq<char>, Seq<char>)>
    decreases contents.len(),
    via settings_decreases
{
    let at = position(contents, '\n');
    let first = match setting(contents.take(at)) {
        Some(pair) => seq![pair],
        None => Seq::empty(),
    };
    if at == contents.len() {
        first
    } else {
        first + settings(contents.skip(at + 1))
    }
}

#[via_fn]
proof fn settings_decreases(contents: Seq<char>) {
    lemma_position(contents, '\n');
}

/// A position is inside the sequence or at its end, and `c` stands at it but not before it.
proof fn lemma_position(s: Seq<char>, c: char)
    ensures
        0 <= position(s, c) <= s.len(),
        position(s, c) < s.len() ==> s[position(s, c)] == c,
        forall|i: int| 0 <= i < position(s, c) ==> s[i] != c,
    decreases s.len(),
{
    if s.len() > 0 && s[0] != c {
        let rest = s.drop_first();
        lemma_position(rest, c);
        assert forall|i: int| 0 <= i < position(s, c) implies s[i] != c by {
            if i > 0 {
                assert(rest[i - 1] != c);
            }
        }
    }
}

/// A key and its value.
pub struct Setting {
    pub key: Vec<char>,
    pub value: Vec<char>,
}

impl View for Setting {
    type V = (Seq<char>, Seq<char>);

    open spec fn view(&self) -> (Seq<char>, Seq<char>) {
        (self.key@, self.value@)
    }
}

/// Whether a character counts as white space.
fn is_white(c: char) -> (w: bool)
    ensures
        w == white(c),
{
    ('\u{9}' <= c && c <= '\u{d}') || c == ' ' || c == '\u{85}' || c == '\u{a0}' || c == '\u{1680}'
        || ('\u{2000}' <= c && c <= '\u{200a}') || c == '\u{2028}' || c == '\u{2029}' || c
        == '\u{202f}' || c == '\u{205f}' || c == '\u{3000}'
}

/// The part of `s` between `from` and `to` without the white space around it.
fn trimmed(s: &Vec<char>, from: usize, to: usize) -> (r: (usize, usize))
    requires
        from <= to <= s@.len(),
    ensures
        from <= r.0 <= r.1 <= to,
        s@.subrange(r.0 as int, r.1 as int) == trim(s@.subrange(from as int, to as int)),
{
    let mut start: usize = from;
    while start < to && is_white(s[start])
        invariant
            from <= start <= to <= s@.len(),
            trim_start(s@.subrange(start as int, to as int)) == trim_start(
                s@.subrange(from as int, to as int),
            ),
        decreases to - start,
    {
        assert(s@.subrange(start as int, to as int).drop_first() =~= s@.subrange(
            start + 1,
            to as int,
        ));
        start = start + 1;
    }
    let mut end: usize = to;
    while start < end && is_white(s[end - 1])
        invariant
            from <= start <= end <= to <= s@.len(),
            trim_end(s@.subrange(start as int, end as int)) == trim_end(
                s@.subrange(start as int, to as int),
            ),
        decreases end - start,
    {
        assert(s@.subrange(start as int, end as int).drop_last() =~= s@.subrange(
            start as int,
            end - 1,
        ));
        end = end - 1;
    }
    (start, end)
}

/// Where `c` first stands in `s` between `from` and `to`, or `to` if it does not.
fn find(s: &Vec<char>, from: usize, to: usize, c: char) -> (at: usize)
    requires
        from <= to <= s@.len(),
    ensures
        from <= at <= to,
        at - from == position(s@.subrange(from as int, to as int), c),
{
    let mut at: usize = from;
    while at < to && s[at] != c
        invariant
            from <= at <= to <= s@.len(),
            position(s@.subrange(from as int, to as int), c) == at - from + position(
                s@.subrange(at as int, to as int),
                c,
            ),
        decreases to - at,
    {
        assert(s@.subrange(at as int, to as int).drop_first() =~= s@.subrange(at + 1, to as int));
        at = at + 1;
    }
    at
}

/// A copy of the part of `s` between `from` and `to`.
fn copied(s: &Vec<char>, from: usize, to: usize) -> (part: Vec<char>)
    requires
        from <= to <= s@.len(),
    ensures
        part@ == s@.subrange(from as int, to as int),
{
    let mut part: Vec<char> = Vec::new();
    for i in from..to
        invariant
            from <= to <= s@.len(),
            part@ == s@.subrange(from as int, i as int),
    {
        part.push(s[i]);
    }
    part
}

/// What the line of `s` between `from` and `to` sets.
fn parse_line(s: &Vec<char>, from: usize, to: usize) -> (r: Option<Setting>)
    requires
        from <= to <= s@.len(),
    ensures
        match r {
            Some(pair) => setting(s@.subrange(from as int, to as int)) == Some(pair@),
            None => setting(s@.subrange(from as int, to as int)) is None,
        },
{
    let (start, end) = trimmed(s, from, to);
    if start == end || s[start] == '#' {
        return None;
    }
    let at: usize = find(s, start, end, '=');
    if at == end {
        return None;
    }
    let ghost text = s@.subrange(start as int, end as int);
    assert(text.take(at - start) =~= s@.subrange(start as int, at as int));
    assert(text.skip(at - start + 1) =~= s@.subrange(at + 1, end as int));
    let (key_start, key_end) = trimmed(s, start, at);
    let (value_start, value_end) = trimmed(s, at + 1, end);
    Some(
        Setting {
            key: copied(s, key_start, key_end),
            value: copied(s, value_start, value_end),
        },
    )
}

/// Reads the settings out of a file, in the order of its lines.
pub fn parse(contents: &Vec<char>) -> (found: Vec<Setting>)
    ensures
        found@.map_values(|s: Setting| s@) == settings(contents@),
{
    let mut found: Vec<Setting> = Vec::new();
    let mut from: usize = 0;
    assert(contents@.subrange(0, contents@.len() as int) =~= contents@);
    assert(found@.map_values(|s: Setting| s@) + settings(contents@) =~= settings(contents@));
    loop
        invariant
            from <= contents@.len(),
            found@.map_values(|s: Setting| s@) + settings(
                contents@.subrange(from as int, contents@.len() as int),
            ) == settings(contents@),
        decreases contents@.len() - from,
    {
        let ghost rest = contents@.subrange(from as int, contents@.len() as int);
        let ghost before = found@.map_values(|s: Setting| s@);
        let to: usize = find(contents, from, contents.len(), '\n');
        assert(rest.take(to - from) =~= contents@.subrange(from as int, to as int));
        match parse_line(contents, from, to) {
            Some(pair) => {
                let ghost p = pair@;
                found.push(pair);
                assert(found@.map_values(|s: Setting| s@) =~= before + seq![p]);
            },
            None => {
                assert(found@.map_values(|s: Setting| s@) =~= before + Seq::empty());
            },
        }
        if to == contents.len() {
            assert(found@.map_values(|s: Setting| s@) =~= before + settings(rest));
            return found;
        }
        assert(rest.skip(to - from + 1) =~= contents@.subrange(to + 1, contents@.len() as int));
        assert(found@.map_values(|s: Setting| s@) + settings(rest.skip(to - from + 1)) =~= before
            + settings(rest));
        from = to + 1;
    }
}

/// Whether all of `s` is white space.
pub open spec fn blank(s: Seq<char>) -> bool {
    forall|i: int| 0 <= i < s.len() ==> white(#[trigger] s[i])
}

/// White space at the start makes no difference to what is left.
proof fn lemma_trim_start_blank(before: Seq<char>, s: Seq<char>)
    requires
        blank(before),
    ensures
        trim_start(before + s) == trim_start(s),
    decreases before.len(),
{
    if before.len() == 0 {
        assert(before + s =~= s);
    } else {
        assert(white(before[0]));
        let rest = before.drop_first();
        assert forall|i: int| 0 <= i < rest.len() implies white(#[trigger] rest[i]) by {
            assert(rest[i] == before[i + 1]);
        }
        lemma_trim_start_blank(rest, s);
        assert((before + s).drop_first() =~= rest + s);
    }
}

/// White space at the end makes no difference to what is left.
proof fn lemma_trim_end_blank(s: Seq<char>, after: Seq<char>)
    requires
        blank(after),
    ensures
        trim_end(s + after) == trim_end(s),
    decreases after.len(),
{
    if after.len() == 0 {
        assert(s + after =~= s);
    } else {
        assert(white(after.last()));
        let rest = after.drop_last();
        assert forall|i: int| 0 <= i < rest.len() implies white(#[trigger] rest[i]) by {
            assert(rest[i] == after[i]);
        }
        lemma_trim_end_blank(s, rest);
        assert((s + after).drop_last() =~= s + rest);
    }
}

/// White space behind a line makes no difference to what trimming leaves.
proof fn lemma_trim_blank_end(s: Seq<char>, after: Seq<char>)
    requires
        blank(after),
    ensures
        trim(s + after) == trim(s),
    decreases s.len(),
{
    if s.len() == 0 {
        lemma_trim_start_blank(after, Seq::empty());
        assert(s + after =~= after + Seq::<char>::empty());
        assert(s =~= Seq::<char>::empty());
    } else if white(s[0]) {
        lemma_trim_blank_end(s.drop_first(), after);
        assert((s + after).drop_first() =~= s.drop_first() + after);
    } else {
        lemma_trim_end_blank(s, after);
    }
}

/// White space around a line makes no difference to what the line sets.
pub proof fn law_space_around_a_line_is_ignored(
    before: Seq<char>,
    line: Seq<char>,
    after: Seq<char>,
)
    requires
        blank(before),
        blank(after),
    ensures
        setting(before + line + after) == setting(line),
{
    lemma_trim_blank_end(before + line, after);
    lemma_trim_start_blank(before, line);
}

/// A blank line sets nothing, and neither does a line whose first character behind white space is
/// `#`, nor one without `=`.
pub proof fn law_lines_that_set_nothing(line: Seq<char>, before: Seq<char>, rest: Seq<char>)
    requires
        blank(before),
    ensures
        setting(before) is None,
        setting(before + seq!['#'] + rest) is None,
        !line.contains('=') ==> setting(line) is None,
{
    lemma_trim_blank_end(Seq::empty(), before);
    assert(Seq::<char>::empty() + before =~= before);
    let comment = seq!['#'] + rest;
    assert(before + seq!['#'] + rest =~= before + comment);
    lemma_trim_start_blank(before, comment);
    lemma_trim_end_keeps_first(comment);
    if !line.contains('=') {
        lemma_trim_part(line);
        lemma_position(trim(line), '=');
    }
}

/// Trimming the end keeps a first character that is not white space.
proof fn lemma_trim_end_keeps_first(s: Seq<char>)
    requires
        s.len() > 0,
        !white(s[0]),
    ensures
        trim_end(s).len() > 0,
        trim_end(s)[0] == s[0],
    decreases s.len(),
{
    if white(s.last()) {
        lemma_trim_end_keeps_first(s.drop_last());
    }
}

/// Trimming the end leaves a prefix.
proof fn lemma_trim_end_part(s: Seq<char>)
    ensures
        trim_end(s).len() <= s.len(),
        trim_end(s) == s.take(trim_end(s).len() as int),
        trim_end(s) == s ==> s.len() == 0 || !white(s.last()),
    decreases s.len(),
{
    if s.len() > 0 && white(s.last()) {
        lemma_trim_end_part(s.drop_last());
        let n = trim_end(s).len() as int;
        assert(s.drop_last().take(n) =~= s.take(n));
    } else {
        assert(s.take(s.len() as int) =~= s);
    }
}

/// Trimming the start leaves a suffix.
proof fn lemma_trim_start_part(s: Seq<char>)
    ensures
        trim_start(s).len() <= s.len(),
        trim_start(s) == s.skip(s.len() - trim_start(s).len()),
        trim_start(s).len() == s.len() ==> s.len() == 0 || !white(s[0]),
    decreases s.len(),
{
    if s.len() > 0 && white(s[0]) {
        lemma_trim_start_part(s.drop_first());
        let n = trim_start(s).len();
        assert(s.drop_first().skip(s.len() - 1 - n) =~= s.skip(s.len() - n));
    } else {
        assert(s.skip(0) =~= s);
    }
}

/// What trimming leaves has only characters of what was trimmed.
proof fn lemma_trim_part(s: Seq<char>)
    ensures
        trim(s).len() <= trim_start(s).len() <= s.len(),
        forall|i: int| 0 <= i < trim(s).len() ==> s.contains(#[trigger] trim(s)[i]),
        trim(s) == s ==> s.len() == 0 || (!white(s[0]) && !white(s.last())),
{
    let t = trim_start(s);
    lemma_trim_start_part(s);
    lemma_trim_end_part(t);
    assert forall|i: int| 0 <= i < trim(s).len() implies s.contains(#[trigger] trim(s)[i]) by {
        assert(trim(s)[i] == t[i]);
        assert(t[i] == s[i + s.len() - t.len()]);
    }
}

/// A position is where `c` stands and nothing before it is `c`.
proof fn lemma_position_is(s: Seq<char>, c: char, at: int)
    requires
        0 <= at < s.len(),
        s[at] == c,
        forall|i: int| 0 <= i < at ==> s[i] != c,
    ensures
        position(s, c) == at,
{
    lemma_position(s, c);
    if position(s, c) < at {
        assert(s[position(s, c)] == c);
    }
}

/// What is written as a key, `=` and a value is read back as that key and that value, if neither
/// has white space around it, the key has no `=` in it and does not start with `#`.
pub proof fn law_key_and_value_read_back(key: Seq<char>, value: Seq<char>)
    requires
        trim(key) == key,
        trim(value) == value,
        !key.contains('='),
        key.len() > 0 ==> key[0] != '#',
    ensures
        setting(key + seq!['='] + value) == Some((key, value)),
{
    let text = key + seq!['='] + value;
    lemma_trim_part(key);
    lemma_trim_part(value);
    assert(!white(text[0]));
    assert(!white(text.last()));
    assert(trim(text) == text);
    assert forall|i: int| 0 <= i < key.len() implies text[i] != '=' by {
        assert(text[i] == key[i]);
        assert(key.contains(key[i]));
    }
    lemma_position_is(text, '=', key.len() as int);
    assert(text.take(key.len() as int) =~= key);
    assert(text.skip(key.len() as int + 1) =~= value);
}

/// Of the ASCII characters the space and those from tab to carriage return are white space, and no
/// other: no letter, no digit and no mark. Of the rest these are: the next-line character, the
/// no-break space, the Ogham space mark, the spaces from U+2000 to U+200A, the line and the
/// paragraph separator, the narrow no-break space, the mathematical space and the ideographic space.
pub proof fn law_white_space(c: char)
    ensures
        c < '\u{9}' ==> !white(c),
        '\u{9}' <= c <= '\u{d}' ==> white(c),
        '\u{d}' < c < ' ' ==> !white(c),
        white(' '),
        '!' <= c <= '~' ==> !white(c),
        ' ' < c < '\u{85}' ==> !white(c),
        white('\u{85}'),
        '\u{85}' < c < '\u{a0}' ==> !white(c),
        white('\u{a0}'),
        '\u{a0}' < c < '\u{1680}' ==> !white(c),
        white('\u{1680}'),
        '\u{1680}' < c < '\u{2000}' ==> !white(c),
        '\u{2000}' <= c <= '\u{200a}' ==> white(c),
        '\u{200a}' < c < '\u{2028}' ==> !white(c),
        white('\u{2028}') && white('\u{2029}'),
        '\u{2029}' < c < '\u{202f}' ==> !white(c),
        white('\u{202f}'),
        '\u{202f}' < c < '\u{205f}' ==> !white(c),
        white('\u{205f}'),
        '\u{205f}' < c < '\u{3000}' ==> !white(c),
        white('\u{3000}'),
        c > '\u{3000}' ==> !white(c),
{
}

/// Whether `s` neither starts nor ends with white space.
pub open spec fn bare(s: Seq<char>) -> bool {
    s.len() > 0 ==> !white(s[0]) && !white(s[s.len() - 1])
}

/// A file of one line sets what the line sets.
proof fn lemma_one_line(line: Seq<char>)
    requires
        !line.contains('\n'),
    ensures
        settings(line) == match setting(line) {
            Some(pair) => seq![pair],
            None => Seq::empty(),
        },
{
    lemma_position(line, '\n');
    if position(line, '\n') < line.len() {
        assert(line.contains(line[position(line, '\n')]));
    }
    assert(line.take(line.len() as int) =~= line);
}

/// A line that starts with a key, or with `=` where the key is empty, sets the key to what trimming
/// leaves of the text behind the `=`.
proof fn lemma_line_sets(key: Seq<char>, mid: Seq<char>, rest: Seq<char>)
    requires
        blank(mid),
        bare(key),
        key.len() == 0 ==> mid.len() == 0,
        !key.contains('='),
        key.len() > 0 ==> key[0] != '#',
        rest.len() > 0 ==> !white(rest[rest.len() - 1]),
    ensures
        setting(key + mid + seq!['='] + rest) == Some((key, trim(rest))),
{
    let left = key + mid;
    let text = left + seq!['='] + rest;
    assert(trim(key) == key);
    lemma_trim_blank_end(key, mid);
    assert(!white(text[0]));
    assert(!white(text.last()));
    assert(trim(text) == text);
    assert forall|i: int| 0 <= i < left.len() implies text[i] != '=' by {
        if i < key.len() {
            assert(text[i] == key[i]);
            assert(key.contains(key[i]));
        } else {
            assert(text[i] == mid[i - key.len()]);
            assert(white(mid[i - key.len()]));
        }
    }
    lemma_position_is(text, '=', left.len() as int);
    assert(text.take(left.len() as int) =~= left);
    assert(text.skip(left.len() as int + 1) =~= rest);
}

/// A line that holds a key, `=` and a value, with any white space around each, sets that key to
/// that value, whatever is inside them: the first `=` ends the key, and a key does not start with
/// `#`. As a file of its own it sets nothing else.
pub proof fn law_line_sets_key_to_value(
    before: Seq<char>,
    key: Seq<char>,
    left: Seq<char>,
    right: Seq<char>,
    value: Seq<char>,
    after: Seq<char>,
)
    requires
        blank(before),
        blank(left),
        blank(right),
        blank(after),
        bare(key),
        bare(value),
        !key.contains('='),
        key.len() > 0 ==> key[0] != '#',
    ensures
        ({
            let line = before + key + left + seq!['='] + right + value + after;
            &&& setting(line) == Some((key, value))
            &&& !line.contains('\n') ==> settings(line) == seq![(key, value)]
        }),
{
    let line = before + key + left + seq!['='] + right + value + after;
    let none = Seq::<char>::empty();
    let (pre, mid) = if key.len() == 0 {
        (before + left, none)
    } else {
        (before, left)
    };
    let (rest, post) = if value.len() == 0 {
        (none, right + after)
    } else {
        (right + value, after)
    };
    lemma_blank_joins(before, left);
    lemma_blank_joins(right, after);
    let text = key + mid + seq!['='] + rest;
    assert(line =~= pre + text + post);
    lemma_line_sets(key, mid, rest);
    assert(trim(value) == value);
    if value.len() > 0 {
        lemma_trim_start_blank(right, value);
    } else {
        assert(value =~= none);
    }
    law_space_around_a_line_is_ignored(pre, text, post);
    if !line.contains('\n') {
        lemma_one_line(line);
    }
}

/// White space behind white space is white space.
proof fn lemma_blank_joins(a: Seq<char>, b: Seq<char>)
    requires
        blank(a),
        blank(b),
    ensures
        blank(a + b),
{
    assert forall|i: int| 0 <= i < (a + b).len() implies white(#[trigger] (a + b)[i]) by {
        if i < a.len() {
            assert(white(a[i]));
        } else {
            assert(white(b[i - a.len()]));
        }
    }
}

/// A key and a value that start and end with printable ASCII characters are read back from a line
/// unchanged, with any spaces and tabs around them: no letter, digit or mark is ever trimmed off.
/// The key has no `=` in it and does not start with `#`.
pub proof fn law_printable_settings_read_back(
    before: Seq<char>,
    key: Seq<char>,
    left: Seq<char>,
    right: Seq<char>,
    value: Seq<char>,
    after: Seq<char>,
)
    requires
        forall|i: int| 0 <= i < before.len() ==> #[trigger] before[i] == ' ' || before[i] == '\t',
        forall|i: int| 0 <= i < left.len() ==> #[trigger] left[i] == ' ' || left[i] == '\t',
        forall|i: int| 0 <= i < right.len() ==> #[trigger] right[i] == ' ' || right[i] == '\t',
        forall|i: int|
            0 <= i < after.len() ==> #[trigger] after[i] == ' ' || after[i] == '\t' || after[i]
                == '\r',
        key.len() > 0 ==> '!' <= key[0] <= '~' && '!' <= key[key.len() - 1] <= '~',
        value.len() > 0 ==> '!' <= value[0] <= '~' && '!' <= value[value.len() - 1] <= '~',
        !key.contains('='),
        key.len() > 0 ==> key[0] != '#',
        !key.contains('\n') && !value.contains('\n'),
    ensures
        settings(before + key + left + seq!['='] + right + value + after) == seq![(key, value)],
{
    let line = before + key + left + seq!['='] + right + value + after;
    assert(blank(before) && blank(left) && blank(right) && blank(after));
    law_line_sets_key_to_value(before, key, left, right, value, after);
    let a = before.len() as int;
    let b = a + key.len();
    let c = b + left.len();
    let d = c + 1 + right.len();
    let e = d + value.len();
    assert forall|i: int| 0 <= i < line.len() implies line[i] != '\n' by {
        if i < a {
            assert(line[i] == before[i]);
        } else if i < b {
            assert(line[i] == key[i - a]);
            assert(key.contains(key[i - a]));
        } else if i < c {
            assert(line[i] == left[i - b]);
        } else if i == c {
            assert(line[i] == '=');
        } else if i < d {
            assert(line[i] == right[i - c - 1]);
        } else if i < e {
            assert(line[i] == value[i - d]);
            assert(value.contains(value[i - d]));
        } else {
            assert(line[i] == after[i - e]);
        }
    }
}

/// A file of one line sets nothing if the line is blank, if the first character behind white space
/// is `#`, or if it has no `=`.
pub proof fn law_files_that_set_nothing(line: Seq<char>, before: Seq<char>, rest: Seq<char>)
    requires
        blank(before),
    ensures
        !before.contains('\n') ==> settings(before).len() == 0,
        !(before + seq!['#'] + rest).contains('\n') ==> settings(
            before + seq!['#'] + rest,
        ).len() == 0,
        !line.contains('\n') && !line.contains('=') ==> settings(line).len() == 0,
{
    law_lines_that_set_nothing(line, before, rest);
    if !before.contains('\n') {
        lemma_one_line(before);
    }
    if !(before + seq!['#'] + rest).contains('\n') {
        lemma_one_line(before + seq!['#'] + rest);
    }
    if !line.contains('\n') {
        lemma_one_line(line);
    }
}

/// Lines are read one by one: two files joined by a line break set what the first sets and then
/// what the second sets.
pub proof fn law_files_join(first: Seq<char>, second: Seq<char>)
    ensures
        settings(first + seq!['\n'] + second) == settings(first) + settings(second),
    decreases first.len(),
{
    let joined = first + seq!['\n'] + second;
    let at = position(first, '\n');
    lemma_position(first, '\n');
    assert(joined[first.len() as int] == '\n');
    assert forall|i: int| 0 <= i < at implies joined[i] != '\n' by {
        assert(joined[i] == first[i]);
    }
    lemma_position_is(joined, '\n', at);
    assert(joined.take(at) =~= first.take(at));
    if at == first.len() {
        assert(joined.skip(at + 1) =~= second);
    } else {
        assert(joined.skip(at + 1) =~= first.skip(at + 1) + seq!['\n'] + second);
        law_files_join(first.skip(at + 1), second);
        let head = match setting(first.take(at)) {
            Some(pair) => seq![pair],
            None => Seq::empty(),
        };
        let tail = settings(first.skip(at + 1));
        assert(head + (tail + settings(second)) =~= (head + tail) + settings(second));
    }
}

} // verus!
