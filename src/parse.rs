use vstd::prelude::*;

use crate::protocol::{
    decimal, digit_char, digits, escape_spaces, int_field_entry, join, lemma_escaped_space_after_backslash,
    lemma_unescape_escape, metric_line, space_piece, tag_entry, timestamp_text,
    unescape_spaces,
};

verus! {

/// `c` does not occur in `s`.
pub open spec fn lacks(s: Seq<char>, c: char) -> bool {
    forall|i: int| 0 <= i < s.len() ==> #[trigger] s[i] != c
}

/// Every space in `s` has a backslash right before it.
pub open spec fn spaces_escaped(s: Seq<char>) -> bool {
    forall|i: int| 0 <= i < s.len() && #[trigger] s[i] == ' ' ==> i > 0 && s[i - 1] == '\\'
}

/// A space at `i` with no backslash right before it: a separator of the line.
pub open spec fn bare_space_at(s: Seq<char>, i: int) -> bool {
    s[i] == ' ' && (i == 0 || s[i - 1] != '\\')
}

/// The first separator at or after `from`; `s.len()` if there is none.
pub open spec fn next_bare_space(s: Seq<char>, from: int) -> int
    decreases s.len() - from,
{
    if from < 0 || from >= s.len() {
        s.len() as int
    } else if bare_space_at(s, from) {
        from
    } else {
        next_bare_space(s, from + 1)
    }
}

/// The last position of `c` in `s`; -1 if there is none.
pub open spec fn last_index_of(s: Seq<char>, c: char) -> int
    decreases s.len(),
{
    if s.len() == 0 {
        -1
    } else if s.last() == c {
        s.len() - 1
    } else {
        last_index_of(s.drop_last(), c)
    }
}

/// The first position of `c` in `s`; `s.len()` if there is none.
pub open spec fn first_index_of(s: Seq<char>, c: char) -> int
    decreases s.len(),
{
    if s.len() == 0 {
        0
    } else if s[0] == c {
        0
    } else {
        1 + first_index_of(s.drop_first(), c)
    }
}

/// The pieces of `s` between the occurrences of `c`.
pub open spec fn split_on(s: Seq<char>, c: char) -> Seq<Seq<char>>
    decreases s.len(),
{
    let k = last_index_of(s, c);
    if 0 <= k < s.len() {
        split_on(s.take(k), c).push(s.skip(k + 1))
    } else {
        seq![s]
    }
}

/// The value of a decimal digit.
pub open spec fn digit_value(c: char) -> nat {
    if c == '1' {
        1
    } else if c == '2' {
        2
    } else if c == '3' {
        3
    } else if c == '4' {
        4
    } else if c == '5' {
        5
    } else if c == '6' {
        6
    } else if c == '7' {
        7
    } else if c == '8' {
        8
    } else if c == '9' {
        9
    } else {
        0
    }
}

/// The number that a run of decimal digits stands for.
pub open spec fn digits_value(s: Seq<char>) -> nat
    decreases s.len(),
{
    if s.len() == 0 {
        0
    } else {
        digits_value(s.drop_last()) * 10 + digit_value(s.last())
    }
}

/// The integer that a decimal text stands for, with an optional minus sign.
pub open spec fn decimal_value(s: Seq<char>) -> int {
    if s.len() > 0 && s[0] == '-' {
        -digits_value(s.drop_first())
    } else {
        digits_value(s) as int
    }
}

/// A tag read back: the key before the first `=`, and the value after it with
/// its spaces unescaped.
pub open spec fn parse_tag(e: Seq<char>) -> (Seq<char>, Seq<char>) {
    let k = first_index_of(e, '=');
    (e.take(k), unescape_spaces(e.skip(k + 1)))
}

/// An integer field read back: the key before the first `=`, and the number
/// between it and the closing `i`.
pub open spec fn parse_int_field(e: Seq<char>) -> (Seq<char>, int) {
    let k = first_index_of(e, '=');
    (e.take(k), decimal_value(e.subrange(k + 1, e.len() - 1)))
}

/// A metric line read back. It is cut at its first two separators (spaces
/// with no backslash before them); the head is cut at its commas into the
/// measurement and the tags, the middle at its commas into the fields, and the
/// nine zeros at the end of the timestamp are dropped.
pub open spec fn parse_line(line: Seq<char>) -> (
    Seq<char>,
    Seq<(Seq<char>, Seq<char>)>,
    Seq<(Seq<char>, int)>,
    int,
) {
    let a = next_bare_space(line, 0);
    let b = next_bare_space(line, a + 1);
    let head = split_on(line.take(a), ',');
    let fields = split_on(line.subrange(a + 1, b), ',');
    let stamp = line.skip(b + 1);
    (
        head[0],
        head.drop_first().map_values(|e: Seq<char>| parse_tag(e)),
        fields.map_values(|e: Seq<char>| parse_int_field(e)),
        decimal_value(stamp.take(stamp.len() - 9)),
    )
}

/// The written form of a tag set.
pub open spec fn tag_entries(tags: Seq<(Seq<char>, Seq<char>)>) -> Seq<Seq<char>> {
    tags.map_values(|p: (Seq<char>, Seq<char>)| tag_entry(p.0, p.1))
}

/// The written form of a set of integer fields.
pub open spec fn int_field_entries(fields: Seq<(Seq<char>, int)>) -> Seq<Seq<char>> {
    fields.map_values(|p: (Seq<char>, int)| int_field_entry(p.0, p.1))
}

/// A name that can stand as a measurement, a tag key or a field key of a line
/// that reads back: no comma, no `=`, and every space escaped.
pub open spec fn plain_name(s: Seq<char>) -> bool {
    lacks(s, ',') && lacks(s, '=') && spaces_escaped(s)
}

pub open spec fn is_digit(c: char) -> bool {
    c == '0' || c == '1' || c == '2' || c == '3' || c == '4' || c == '5' || c == '6' || c == '7'
        || c == '8' || c == '9'
}

proof fn lemma_digits(n: nat)
    ensures
        digits(n).len() > 0,
        forall|i: int| 0 <= i < digits(n).len() ==> is_digit(#[trigger] digits(n)[i]),
        digits_value(digits(n)) == n,
    decreases n,
{
    if n >= 10 {
        lemma_digits(n / 10);
        let d = digits(n);
        assert(d.drop_last() =~= digits(n / 10));
        assert forall|i: int| 0 <= i < d.len() implies is_digit(#[trigger] d[i]) by {
            if i < d.len() - 1 {
                assert(d[i] == digits(n / 10)[i]);
            }
        }
        assert(d.last() == digit_char(n % 10));
        assert(digit_value(digit_char(n % 10)) == n % 10);
        assert(digits_value(d) == digits_value(digits(n / 10)) * 10 + digit_value(d.last()));
        assert((n / 10) * 10 + n % 10 == n);
    } else {
        let d = digits(n);
        assert(digit_value(digit_char(n)) == n);
        assert(d.drop_last() =~= Seq::<char>::empty());
        assert(digits_value(d.drop_last()) == 0);
        assert(d.last() == digit_char(n));
    }
}

proof fn lemma_decimal(n: int)
    ensures
        decimal_value(decimal(n)) == n,
        forall|i: int|
            0 <= i < decimal(n).len() ==> is_digit(#[trigger] decimal(n)[i]) || decimal(n)[i]
                == '-',
{
    if n < 0 {
        lemma_digits((-n) as nat);
        assert(decimal(n).drop_first() =~= digits((-n) as nat));
        assert forall|i: int| 0 <= i < decimal(n).len() implies is_digit(#[trigger] decimal(n)[i])
            || decimal(n)[i] == '-' by {
            if i > 0 {
                assert(decimal(n)[i] == digits((-n) as nat)[i - 1]);
            }
        }
    } else {
        lemma_digits(n as nat);
        assert(is_digit(digits(n as nat)[0]));
    }
}

proof fn lemma_escaped_concat(a: Seq<char>, b: Seq<char>)
    requires
        spaces_escaped(a),
        spaces_escaped(b),
    ensures
        spaces_escaped(a + b),
{
    let s = a + b;
    assert forall|i: int| 0 <= i < s.len() && #[trigger] s[i] == ' ' implies i > 0 && s[i - 1]
        == '\\' by {
        if i < a.len() {
            assert(s[i] == a[i]);
        } else {
            assert(s[i] == b[i - a.len()]);
            if i - a.len() > 0 {
                assert(s[i - 1] == b[i - 1 - a.len()]);
            }
        }
    }
}

proof fn lemma_lacks_concat(a: Seq<char>, b: Seq<char>, c: char)
    requires
        lacks(a, c),
        lacks(b, c),
    ensures
        lacks(a + b, c),
{
    assert forall|i: int| 0 <= i < (a + b).len() implies #[trigger] (a + b)[i] != c by {
        if i < a.len() {
            assert((a + b)[i] == a[i]);
        } else {
            assert((a + b)[i] == b[i - a.len()]);
        }
    }
}

proof fn lemma_escape_lacks(v: Seq<char>, c: char)
    requires
        lacks(v, c),
        c != '\\',
        c != ' ',
    ensures
        lacks(escape_spaces(v), c),
    decreases v.len(),
{
    if v.len() > 0 {
        lemma_escape_lacks(v.drop_last(), c);
        assert(v.last() == v[v.len() - 1]);
        lemma_lacks_concat(escape_spaces(v.drop_last()), space_piece(v.last()), c);
    }
}

proof fn lemma_escape_last(v: Seq<char>)
    requires
        v.len() > 0,
    ensures
        escape_spaces(v).len() > 0,
        escape_spaces(v).last() == v.last(),
{
}

proof fn lemma_join_lacks(parts: Seq<Seq<char>>, sep: char, c: char)
    requires
        sep != c,
        forall|i: int| 0 <= i < parts.len() ==> lacks(#[trigger] parts[i], c),
    ensures
        lacks(join(parts, sep), c),
    decreases parts.len(),
{
    if parts.len() > 1 {
        lemma_join_lacks(parts.drop_last(), sep, c);
        assert(lacks(parts[parts.len() - 1], c));
        lemma_lacks_concat(join(parts.drop_last(), sep), seq![sep], c);
        lemma_lacks_concat(join(parts.drop_last(), sep) + seq![sep], parts.last(), c);
    } else if parts.len() == 1 {
        assert(lacks(parts[0], c));
    }
}

proof fn lemma_join_escaped(parts: Seq<Seq<char>>, sep: char)
    requires
        sep != ' ',
        forall|i: int| 0 <= i < parts.len() ==> spaces_escaped(#[trigger] parts[i]),
    ensures
        spaces_escaped(join(parts, sep)),
    decreases parts.len(),
{
    if parts.len() > 1 {
        lemma_join_escaped(parts.drop_last(), sep);
        assert(spaces_escaped(parts[parts.len() - 1]));
        assert(spaces_escaped(seq![sep]));
        lemma_escaped_concat(join(parts.drop_last(), sep), seq![sep]);
        lemma_escaped_concat(join(parts.drop_last(), sep) + seq![sep], parts.last());
    } else if parts.len() == 1 {
        assert(spaces_escaped(parts[0]));
    }
}

proof fn lemma_join_last(parts: Seq<Seq<char>>, sep: char)
    requires
        parts.len() > 0,
        parts.last().len() > 0,
    ensures
        join(parts, sep).len() > 0,
        join(parts, sep).last() == parts.last().last(),
{
}

proof fn lemma_join_prepend(x: Seq<char>, parts: Seq<Seq<char>>, sep: char)
    requires
        parts.len() > 0,
    ensures
        join(seq![x] + parts, sep) == x + seq![sep] + join(parts, sep),
    decreases parts.len(),
{
    let all = seq![x] + parts;
    assert(all.last() == parts.last());
    if parts.len() == 1 {
        assert(all.drop_last() =~= seq![x]);
        assert(join(seq![x], sep) == x);
        assert(join(all, sep) == join(all.drop_last(), sep) + seq![sep] + all.last());
        assert(join(parts, sep) == parts[0]);
    } else {
        assert(all.drop_last() =~= seq![x] + parts.drop_last());
        lemma_join_prepend(x, parts.drop_last(), sep);
        assert(join(all, sep) == join(all.drop_last(), sep) + seq![sep] + all.last());
        assert(join(parts, sep) == join(parts.drop_last(), sep) + seq![sep] + parts.last());
        assert(join(all, sep) =~= x + seq![sep] + join(parts, sep));
    }
}

proof fn lemma_last_index_absent(s: Seq<char>, c: char)
    requires
        lacks(s, c),
    ensures
        last_index_of(s, c) == -1,
    decreases s.len(),
{
    if s.len() > 0 {
        assert(s.last() == s[s.len() - 1]);
        lemma_last_index_absent(s.drop_last(), c);
    }
}

proof fn lemma_last_index_sep(a: Seq<char>, c: char, b: Seq<char>)
    requires
        lacks(b, c),
    ensures
        last_index_of(a + seq![c] + b, c) == a.len(),
    decreases b.len(),
{
    let s = a + seq![c] + b;
    if b.len() > 0 {
        assert(s.last() == b[b.len() - 1]);
        assert(s.drop_last() =~= a + seq![c] + b.drop_last());
        lemma_last_index_sep(a, c, b.drop_last());
    }
}

proof fn lemma_split_join(parts: Seq<Seq<char>>, c: char)
    requires
        parts.len() > 0,
        forall|i: int| 0 <= i < parts.len() ==> lacks(#[trigger] parts[i], c),
    ensures
        split_on(join(parts, c), c) == parts,
    decreases parts.len(),
{
    if parts.len() == 1 {
        assert(lacks(parts[0], c));
        lemma_last_index_absent(parts[0], c);
        assert(seq![parts[0]] =~= parts);
    } else {
        let init = join(parts.drop_last(), c);
        let s = join(parts, c);
        assert(lacks(parts[parts.len() - 1], c));
        lemma_last_index_sep(init, c, parts.last());
        assert(s.take(init.len() as int) =~= init);
        assert(s.skip(init.len() as int + 1) =~= parts.last());
        lemma_split_join(parts.drop_last(), c);
        assert(parts.drop_last().push(parts.last()) =~= parts);
    }
}

proof fn lemma_first_index_sep(a: Seq<char>, c: char, b: Seq<char>)
    requires
        lacks(a, c),
    ensures
        first_index_of(a + seq![c] + b, c) == a.len(),
    decreases a.len(),
{
    let s = a + seq![c] + b;
    if a.len() > 0 {
        assert(s[0] == a[0]);
        assert(s.drop_first() =~= a.drop_first() + seq![c] + b);
        lemma_first_index_sep(a.drop_first(), c, b);
    }
}

proof fn lemma_next_bare_space(s: Seq<char>, from: int, k: int)
    requires
        0 <= from <= k < s.len(),
        bare_space_at(s, k),
        forall|i: int| from <= i < k ==> !bare_space_at(s, i),
    ensures
        next_bare_space(s, from) == k,
    decreases k - from,
{
    if from < k {
        lemma_next_bare_space(s, from + 1, k);
    }
}

proof fn lemma_parse_tag(key: Seq<char>, val: Seq<char>)
    requires
        lacks(key, '='),
    ensures
        parse_tag(tag_entry(key, val)) == (key, val),
{
    let e = tag_entry(key, val);
    lemma_first_index_sep(key, '=', escape_spaces(val));
    assert(e.take(key.len() as int) =~= key);
    assert(e.skip(key.len() as int + 1) =~= escape_spaces(val));
    lemma_unescape_escape(val);
}

proof fn lemma_parse_int_field(key: Seq<char>, val: int)
    requires
        lacks(key, '='),
    ensures
        parse_int_field(int_field_entry(key, val)) == (key, val),
{
    let e = int_field_entry(key, val);
    assert(e =~= key + seq!['='] + (decimal(val) + seq!['i']));
    lemma_first_index_sep(key, '=', decimal(val) + seq!['i']);
    assert(e.take(key.len() as int) =~= key);
    assert(e.subrange(key.len() as int + 1, e.len() - 1) =~= decimal(val));
    lemma_decimal(val);
}

proof fn lemma_tag_entry_shape(key: Seq<char>, val: Seq<char>)
    requires
        plain_name(key),
        lacks(val, ','),
    ensures
        lacks(tag_entry(key, val), ','),
        spaces_escaped(tag_entry(key, val)),
        tag_entry(key, val).len() > 0,
        val.len() > 0 ==> tag_entry(key, val).last() == val.last(),
        val.len() == 0 ==> tag_entry(key, val).last() == '=',
{
    lemma_escape_lacks(val, ',');
    lemma_lacks_concat(key, seq!['='], ',');
    lemma_lacks_concat(key + seq!['='], escape_spaces(val), ',');
    lemma_escaped_space_after_backslash(val);
    assert(spaces_escaped(seq!['=']));
    lemma_escaped_concat(key, seq!['=']);
    lemma_escaped_concat(key + seq!['='], escape_spaces(val));
    if val.len() > 0 {
        lemma_escape_last(val);
    } else {
        assert(escape_spaces(val) =~= Seq::<char>::empty());
        assert(tag_entry(key, val) =~= key + seq!['=']);
    }
}

proof fn lemma_tag_entry_escaped(key: Seq<char>, val: Seq<char>)
    requires
        spaces_escaped(key),
    ensures
        spaces_escaped(tag_entry(key, val)),
        tag_entry(key, val).len() > 0,
        val.len() > 0 ==> tag_entry(key, val).last() == val.last(),
        val.len() == 0 ==> tag_entry(key, val).last() == '=',
{
    lemma_escaped_space_after_backslash(val);
    assert(spaces_escaped(seq!['=']));
    lemma_escaped_concat(key, seq!['=']);
    lemma_escaped_concat(key + seq!['='], escape_spaces(val));
    if val.len() > 0 {
        lemma_escape_last(val);
    } else {
        assert(escape_spaces(val) =~= Seq::<char>::empty());
        assert(tag_entry(key, val) =~= key + seq!['=']);
    }
}

/// In a metric line whose tag values have their spaces escaped, every space
/// of the measurement-and-tags section has a backslash before it, and the
/// first space without one is the one right after that section. This holds
/// where the measurement and the tag keys have their own spaces escaped and
/// the last tag value does not end in a backslash.
pub proof fn lemma_line_tag_section(
    measurement: Seq<char>,
    tags: Seq<(Seq<char>, Seq<char>)>,
    fields: Seq<Seq<char>>,
    seconds: int,
)
    requires
        spaces_escaped(measurement),
        forall|i: int| 0 <= i < tags.len() ==> spaces_escaped(#[trigger] tags[i].0),
        tags.len() > 0 && tags.last().1.len() > 0 ==> tags.last().1.last() != '\\',
    ensures
        ({
            let line = metric_line(measurement, tag_entries(tags), fields, seconds);
            let n = measurement.len() + 1 + join(tag_entries(tags), ',').len() as int;
            &&& spaces_escaped(line.take(n))
            &&& line[n] == ' '
            &&& line[n - 1] != '\\'
            &&& next_bare_space(line, 0) == n
        }),
{
    let te = tag_entries(tags);
    let line = metric_line(measurement, te, fields, seconds);
    let head = measurement + seq![','] + join(te, ',');
    let n = head.len() as int;
    assert(line =~= head + (seq![' '] + join(fields, ',') + seq![' '] + timestamp_text(seconds)));
    assert forall|i: int| 0 <= i < te.len() implies spaces_escaped(#[trigger] te[i]) by {
        lemma_tag_entry_escaped(tags[i].0, tags[i].1);
    }
    lemma_join_escaped(te, ',');
    assert(spaces_escaped(seq![',']));
    lemma_escaped_concat(measurement, seq![',']);
    lemma_escaped_concat(measurement + seq![','], join(te, ','));
    if te.len() > 0 {
        lemma_tag_entry_escaped(tags.last().0, tags.last().1);
        assert(te.last() == tag_entry(tags.last().0, tags.last().1));
        lemma_join_last(te, ',');
        assert(head.last() == join(te, ',').last());
    } else {
        assert(join(te, ',') =~= Seq::<char>::empty());
        assert(head.last() == ',');
    }
    assert(line.take(n) =~= head);
    assert forall|i: int| 0 <= i < n implies !bare_space_at(line, i) by {
        assert(line[i] == head[i]);
        if i > 0 {
            assert(line[i - 1] == head[i - 1]);
        }
    }
    assert(line[n] == ' ');
    assert(line[n - 1] == head.last());
    lemma_next_bare_space(line, 0, n);
}

proof fn lemma_int_field_entry_shape(key: Seq<char>, val: int)
    requires
        plain_name(key),
    ensures
        lacks(int_field_entry(key, val), ','),
        spaces_escaped(int_field_entry(key, val)),
        int_field_entry(key, val).len() > 0,
        int_field_entry(key, val).last() == 'i',
{
    lemma_decimal(val);
    let tail = seq!['='] + decimal(val) + seq!['i'];
    assert forall|i: int| 0 <= i < tail.len() implies #[trigger] tail[i] != ',' && tail[i] != ' '
        by {
        if 0 < i < tail.len() - 1 {
            assert(tail[i] == decimal(val)[i - 1]);
        }
    }
    assert(int_field_entry(key, val) =~= key + tail);
    lemma_lacks_concat(key, tail, ',');
    lemma_escaped_concat(key, tail);
}

/// A metric line reads back into the measurement, tags, fields and timestamp
/// that it was made from, when cut at its unescaped spaces and its commas.
/// This holds where the names are plain (no comma, no `=`, every space
/// escaped), no tag value holds a comma, the last tag value does not end in a
/// backslash (it would escape the space after it), and there is at least one
/// tag and one field.
pub proof fn lemma_parse_metric_line(
    measurement: Seq<char>,
    tags: Seq<(Seq<char>, Seq<char>)>,
    fields: Seq<(Seq<char>, int)>,
    seconds: int,
)
    requires
        lacks(measurement, ','),
        spaces_escaped(measurement),
        tags.len() > 0,
        fields.len() > 0,
        forall|i: int| 0 <= i < tags.len() ==> plain_name(#[trigger] tags[i].0) && lacks(
            tags[i].1,
            ',',
        ),
        tags.last().1.len() > 0 ==> tags.last().1.last() != '\\',
        forall|i: int| 0 <= i < fields.len() ==> plain_name(#[trigger] fields[i].0),
    ensures
        parse_line(metric_line(measurement, tag_entries(tags), int_field_entries(fields), seconds))
            == (measurement, tags, fields, seconds),
{
    let te = tag_entries(tags);
    let fe = int_field_entries(fields);
    let line = metric_line(measurement, te, fe, seconds);
    let head = measurement + seq![','] + join(te, ',');
    let mid = join(fe, ',');
    let stamp = timestamp_text(seconds);
    assert(line =~= head + seq![' '] + mid + seq![' '] + stamp);

    // Each entry keeps its commas out and its spaces escaped.
    assert forall|i: int| 0 <= i < te.len() implies lacks(#[trigger] te[i], ',') && spaces_escaped(
        te[i],
    ) by {
        lemma_tag_entry_shape(tags[i].0, tags[i].1);
    }
    assert forall|i: int| 0 <= i < fe.len() implies lacks(#[trigger] fe[i], ',') && spaces_escaped(
        fe[i],
    ) by {
        lemma_int_field_entry_shape(fields[i].0, fields[i].1);
    }
    let all = seq![measurement] + te;
    lemma_join_prepend(measurement, te, ',');
    assert forall|i: int| 0 <= i < all.len() implies lacks(#[trigger] all[i], ',') && spaces_escaped(
        all[i],
    ) by {
        if i > 0 {
            assert(all[i] == te[i - 1]);
        }
    }
    lemma_join_escaped(all, ',');
    lemma_join_escaped(fe, ',');

    // The head ends in the last tag's last character, the middle in `i`.
    lemma_tag_entry_shape(tags.last().0, tags.last().1);
    assert(te.last() == tag_entry(tags.last().0, tags.last().1));
    lemma_join_last(te, ',');
    assert(head.last() == join(te, ',').last());
    lemma_int_field_entry_shape(fields.last().0, fields.last().1);
    assert(fe.last() == int_field_entry(fields.last().0, fields.last().1));
    lemma_join_last(fe, ',');

    // The first separator follows the head.
    let a = head.len() as int;
    assert forall|i: int| 0 <= i < a implies !bare_space_at(line, i) by {
        assert(line[i] == head[i]);
        if i > 0 {
            assert(line[i - 1] == head[i - 1]);
        }
    }
    assert(line[a] == ' ');
    assert(line[a - 1] == head.last());
    lemma_next_bare_space(line, 0, a);

    // The second separator follows the middle.
    let b = a + 1 + mid.len();
    assert forall|i: int| a + 1 <= i < b implies !bare_space_at(line, i) by {
        assert(line[i] == mid[i - a - 1]);
        if i > a + 1 {
            assert(line[i - 1] == mid[i - a - 2]);
        }
    }
    assert(line[b] == ' ');
    assert(line[b - 1] == mid.last());
    lemma_next_bare_space(line, a + 1, b);

    assert(line.take(a) =~= head);
    assert(line.subrange(a + 1, b) =~= mid);
    assert(line.skip(b + 1) =~= stamp);
    lemma_split_join(all, ',');
    lemma_split_join(fe, ',');
    assert(all.drop_first() =~= te);

    assert(stamp.take(stamp.len() - 9) =~= decimal(seconds));
    lemma_decimal(seconds);

    assert forall|i: int| 0 <= i < te.len() implies parse_tag(#[trigger] te[i]) == tags[i] by {
        lemma_parse_tag(tags[i].0, tags[i].1);
    }
    assert(te.map_values(|e: Seq<char>| parse_tag(e)) =~= tags);
    assert forall|i: int| 0 <= i < fe.len() implies parse_int_field(#[trigger] fe[i]) == fields[i] by {
        lemma_parse_int_field(fields[i].0, fields[i].1);
    }
    assert(fe.map_values(|e: Seq<char>| parse_int_field(e)) =~= fields);
}

} // verus!
