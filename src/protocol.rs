use vstd::prelude::*;

verus! {

/// What one character of a tag value becomes on the wire: a space gets a
/// backslash in front of it, anything else stays as it is.
pub open spec fn space_piece(c: char) -> Seq<char> {
    if c == ' ' {
        seq!['\\', ' ']
    } else {
        seq![c]
    }
}

/// A tag value with every space escaped as backslash-space.
pub open spec fn escape_spaces(s: Seq<char>) -> Seq<char>
    decreases s.len(),
{
    if s.len() == 0 {
        Seq::<char>::empty()
    } else {
        escape_spaces(s.drop_last()) + space_piece(s.last())
    }
}

/// Reading an escaped tag value back: each backslash-space pair, taken from the
/// left, stands for one space; every other character stands for itself.
pub open spec fn unescape_spaces(s: Seq<char>) -> Seq<char>
    decreases s.len(),
{
    if s.len() == 0 {
        Seq::<char>::empty()
    } else if s.len() >= 2 && s[0] == '\\' && s[1] == ' ' {
        seq![' '] + unescape_spaces(s.subrange(2, s.len() as int))
    } else {
        seq![s[0]] + unescape_spaces(s.drop_first())
    }
}

/// What one character of a string field becomes: a newline is written as the
/// two characters backslash and `n`.
pub open spec fn newline_piece(c: char) -> Seq<char> {
    if c == '\n' {
        seq!['\\', 'n']
    } else {
        seq![c]
    }
}

/// A string field value with every newline escaped.
pub open spec fn escape_newlines(s: Seq<char>) -> Seq<char>
    decreases s.len(),
{
    if s.len() == 0 {
        Seq::<char>::empty()
    } else {
        escape_newlines(s.drop_last()) + newline_piece(s.last())
    }
}

/// The decimal digit for `d < 10`.
pub open spec fn digit_char(d: nat) -> char {
    if d == 0 {
        '0'
    } else if d == 1 {
        '1'
    } else if d == 2 {
        '2'
    } else if d == 3 {
        '3'
    } else if d == 4 {
        '4'
    } else if d == 5 {
        '5'
    } else if d == 6 {
        '6'
    } else if d == 7 {
        '7'
    } else if d == 8 {
        '8'
    } else {
        '9'
    }
}

/// The decimal digits of `n`, most significant first, with no leading zero.
pub open spec fn digits(n: nat) -> Seq<char>
    decreases n,
{
    if n < 10 {
        seq![digit_char(n)]
    } else {
        digits(n / 10) + seq![digit_char(n % 10)]
    }
}

/// The decimal text of an integer: a minus sign before the digits of a
/// negative one.
pub open spec fn decimal(n: int) -> Seq<char> {
    if n < 0 {
        seq!['-'] + digits((-n) as nat)
    } else {
        digits(n as nat)
    }
}

/// Nine zero digits: the text that turns seconds into nanoseconds.
pub open spec fn nine_zeros() -> Seq<char> {
    Seq::new(9, |i: int| '0')
}

/// A timestamp in seconds, written in nanoseconds by appending nine zeros to
/// its decimal text.
pub open spec fn timestamp_text(seconds: int) -> Seq<char> {
    decimal(seconds) + nine_zeros()
}

/// The parts joined into one text, with `sep` between two neighbours.
pub open spec fn join(parts: Seq<Seq<char>>, sep: char) -> Seq<char>
    decreases parts.len(),
{
    if parts.len() == 0 {
        Seq::<char>::empty()
    } else if parts.len() == 1 {
        parts[0]
    } else {
        join(parts.drop_last(), sep) + seq![sep] + parts.last()
    }
}

/// One tag as written: `key=value`, with the value's spaces escaped.
pub open spec fn tag_entry(key: Seq<char>, val: Seq<char>) -> Seq<char> {
    key + seq!['='] + escape_spaces(val)
}

/// One integer field as written: `key=<decimal>i`.
pub open spec fn int_field_entry(key: Seq<char>, val: int) -> Seq<char> {
    key + seq!['='] + decimal(val) + seq!['i']
}

/// One string field as written: `key="value"`, with the value's newlines
/// escaped.
pub open spec fn str_field_entry(key: Seq<char>, val: Seq<char>) -> Seq<char> {
    key + seq!['=', '"'] + escape_newlines(val) + seq!['"']
}

/// A whole metric line:
/// `<measurement>,<tags> <fields> <seconds>000000000`.
pub open spec fn metric_line(
    measurement: Seq<char>,
    tags: Seq<Seq<char>>,
    fields: Seq<Seq<char>>,
    seconds: int,
) -> Seq<char> {
    measurement + seq![','] + join(tags, ',') + seq![' '] + join(fields, ',') + seq![' ']
        + timestamp_text(seconds)
}

/// Relies on `String::push`: the character is added at the end of the string.
#[verifier::external_body]
fn push_char(s: &mut String, c: char)
    ensures
        final(s)@ == old(s)@.push(c),
{
    s.push(c)
}

fn push_digit(out: &mut String, d: u64)
    requires
        d < 10,
    ensures
        final(out)@ == old(out)@.push(digit_char(d as nat)),
{
    let c = match d {
        0 => '0',
        1 => '1',
        2 => '2',
        3 => '3',
        4 => '4',
        5 => '5',
        6 => '6',
        7 => '7',
        8 => '8',
        _ => '9',
    };
    push_char(out, c);
}

/// Appends the decimal digits of `n`.
fn push_digits(out: &mut String, n: u64)
    ensures
        final(out)@ == old(out)@ + digits(n as nat),
    decreases n,
{
    if n >= 10 {
        push_digits(out, n / 10);
        push_digit(out, n % 10);
        assert(final(out)@ =~= old(out)@ + digits(n as nat));
    } else {
        push_digit(out, n);
        assert(final(out)@ =~= old(out)@ + digits(n as nat));
    }
}

/// Appends the decimal text of `n`.
pub fn push_decimal(out: &mut String, n: i64)
    ensures
        final(out)@ == old(out)@ + decimal(n as int),
{
    if n < 0 {
        push_char(out, '-');
        let m: u64 = (-(n + 1)) as u64 + 1;
        push_digits(out, m);
        assert(final(out)@ =~= old(out)@ + decimal(n as int));
    } else {
        push_digits(out, n as u64);
    }
}

/// Appends a timestamp given in seconds, written in nanoseconds: its decimal
/// text followed by nine zeros, with no arithmetic on the value.
pub fn push_timestamp(out: &mut String, seconds: i64)
    ensures
        final(out)@ == old(out)@ + timestamp_text(seconds as int),
{
    let ghost start = out@;
    push_decimal(out, seconds);
    let mut k: usize = 0;
    while k < 9
        invariant
            k <= 9,
            out@ == start + decimal(seconds as int) + Seq::new(k as nat, |i: int| '0'),
        decreases 9 - k,
    {
        push_char(out, '0');
        k = k + 1;
        assert(out@ =~= start + decimal(seconds as int) + Seq::new(k as nat, |i: int| '0'));
    }
    assert(out@ =~= start + timestamp_text(seconds as int));
}

/// Appends `s` with every space escaped as backslash-space.
pub fn push_escaped_spaces(out: &mut String, s: &str)
    ensures
        final(out)@ == old(out)@ + escape_spaces(s@),
{
    let ghost start = out@;
    let n = s.unicode_len();
    let mut i: usize = 0;
    while i < n
        invariant
            n == s@.len(),
            i <= n,
            out@ == start + escape_spaces(s@.take(i as int)),
        decreases n - i,
    {
        let c = s.get_char(i);
        if c == ' ' {
            push_char(out, '\\');
        }
        push_char(out, c);
        assert(s@.take(i + 1).drop_last() =~= s@.take(i as int));
        i = i + 1;
        assert(out@ =~= start + escape_spaces(s@.take(i as int)));
    }
    assert(s@.take(n as int) =~= s@);
}

/// Appends `s` with every newline escaped as backslash-`n`.
pub fn push_escaped_newlines(out: &mut String, s: &str)
    ensures
        final(out)@ == old(out)@ + escape_newlines(s@),
{
    let ghost start = out@;
    let n = s.unicode_len();
    let mut i: usize = 0;
    while i < n
        invariant
            n == s@.len(),
            i <= n,
            out@ == start + escape_newlines(s@.take(i as int)),
        decreases n - i,
    {
        let c = s.get_char(i);
        if c == '\n' {
            push_char(out, '\\');
            push_char(out, 'n');
        } else {
            push_char(out, c);
        }
        assert(s@.take(i + 1).drop_last() =~= s@.take(i as int));
        i = i + 1;
        assert(out@ =~= start + escape_newlines(s@.take(i as int)));
    }
    assert(s@.take(n as int) =~= s@);
}

/// A tag value with every space escaped as backslash-space.
pub fn escape_tag_value(s: &str) -> (r: String)
    ensures
        r@ == escape_spaces(s@),
{
    let mut out = String::new();
    push_escaped_spaces(&mut out, s);
    assert(out@ =~= escape_spaces(s@));
    out
}

/// A tag value read back from the wire: each backslash-space pair, taken from
/// the left, becomes one space.
pub fn unescape_tag_value(s: &str) -> (r: String)
    ensures
        r@ == unescape_spaces(s@),
{
    let mut out = String::new();
    let n = s.unicode_len();
    let mut i: usize = 0;
    assert(s@.subrange(0, n as int) =~= s@);
    assert(out@ + unescape_spaces(s@) =~= unescape_spaces(s@));
    while i < n
        invariant
            n == s@.len(),
            i <= n,
            out@ + unescape_spaces(s@.subrange(i as int, n as int)) == unescape_spaces(s@),
        decreases n - i,
    {
        let ghost rest = s@.subrange(i as int, n as int);
        let c = s.get_char(i);
        if c == '\\' && i + 1 < n && s.get_char(i + 1) == ' ' {
            push_char(&mut out, ' ');
            assert(rest.subrange(2, rest.len() as int) =~= s@.subrange(i + 2, n as int));
            i = i + 2;
        } else {
            push_char(&mut out, c);
            assert(rest.drop_first() =~= s@.subrange(i + 1, n as int));
            i = i + 1;
        }
        assert(out@ + unescape_spaces(s@.subrange(i as int, n as int)) =~= unescape_spaces(s@));
    }
    assert(out@ =~= out@ + unescape_spaces(s@.subrange(n as int, n as int)));
    out
}

/// Appends the parts, with `sep` between two neighbours.
pub fn push_joined(out: &mut String, parts: &Vec<String>, sep: char)
    ensures
        final(out)@ == old(out)@ + join(parts.deep_view(), sep),
{
    let ghost start = out@;
    let ghost all = parts.deep_view();
    let mut i: usize = 0;
    while i < parts.len()
        invariant
            i <= parts.len(),
            all == parts.deep_view(),
            out@ == start + join(all.take(i as int), sep),
        decreases parts.len() - i,
    {
        if i > 0 {
            push_char(out, sep);
        }
        out.append(parts[i].as_str());
        assert(all.take(i + 1).drop_last() =~= all.take(i as int));
        i = i + 1;
        assert(out@ =~= start + join(all.take(i as int), sep));
    }
    assert(all.take(parts.len() as int) =~= all);
}

/// Adds the tag `key=value` at the end of a tag set, escaping the value's
/// spaces.
pub fn tag_push(vec: Vec<String>, key: String, val: String) -> (r: Vec<String>)
    ensures
        r.deep_view() == vec.deep_view().push(tag_entry(key@, val@)),
{
    let mut vec = vec;
    let mut entry = key;
    push_char(&mut entry, '=');
    push_escaped_spaces(&mut entry, val.as_str());
    let ghost before = vec.deep_view();
    let ghost text = entry@;
    vec.push(entry);
    assert(text =~= tag_entry(key@, val@));
    assert(vec@.last().deep_view() == text);
    assert(vec.deep_view() =~= before.push(tag_entry(key@, val@)));
    vec
}

/// Adds the integer field `key=<val>i` at the end of a field set.
pub fn field_push_i(vec: Vec<String>, key: String, val: i64) -> (r: Vec<String>)
    ensures
        r.deep_view() == vec.deep_view().push(int_field_entry(key@, val as int)),
{
    let mut vec = vec;
    let mut entry = key;
    push_char(&mut entry, '=');
    push_decimal(&mut entry, val);
    push_char(&mut entry, 'i');
    let ghost before = vec.deep_view();
    let ghost text = entry@;
    vec.push(entry);
    assert(text =~= int_field_entry(key@, val as int));
    assert(vec@.last().deep_view() == text);
    assert(vec.deep_view() =~= before.push(int_field_entry(key@, val as int)));
    vec
}

/// Adds the unsigned integer field `key=<val>i` at the end of a field set.
pub fn field_push_u(vec: Vec<String>, key: String, val: usize) -> (r: Vec<String>)
    ensures
        r.deep_view() == vec.deep_view().push(int_field_entry(key@, val as int)),
{
    let mut vec = vec;
    let mut entry = key;
    push_char(&mut entry, '=');
    push_digits(&mut entry, val as u64);
    push_char(&mut entry, 'i');
    let ghost before = vec.deep_view();
    let ghost text = entry@;
    vec.push(entry);
    assert(text =~= int_field_entry(key@, val as int));
    assert(vec@.last().deep_view() == text);
    assert(vec.deep_view() =~= before.push(int_field_entry(key@, val as int)));
    vec
}

/// Adds the string field `key="val"` at the end of a field set, escaping the
/// value's newlines.
pub fn field_push_s(vec: Vec<String>, key: String, val: String) -> (r: Vec<String>)
    ensures
        r.deep_view() == vec.deep_view().push(str_field_entry(key@, val@)),
{
    let mut vec = vec;
    let mut entry = key;
    push_char(&mut entry, '=');
    push_char(&mut entry, '"');
    push_escaped_newlines(&mut entry, val.as_str());
    push_char(&mut entry, '"');
    let ghost before = vec.deep_view();
    let ghost text = entry@;
    vec.push(entry);
    assert(text =~= str_field_entry(key@, val@));
    assert(vec@.last().deep_view() == text);
    assert(vec.deep_view() =~= before.push(str_field_entry(key@, val@)));
    vec
}

/// Renders one metric line from a measurement name, a tag set, a field set
/// and a timestamp in seconds.
pub fn render_line(measurement: &str, tags: &Vec<String>, fields: &Vec<String>, timestamp: i64) -> (r:
    String)
    ensures
        r@ == metric_line(measurement@, tags.deep_view(), fields.deep_view(), timestamp as int),
{
    let mut out = String::new();
    out.append(measurement);
    push_char(&mut out, ',');
    push_joined(&mut out, tags, ',');
    push_char(&mut out, ' ');
    push_joined(&mut out, fields, ',');
    push_char(&mut out, ' ');
    push_timestamp(&mut out, timestamp);
    assert(out@ =~= metric_line(
        measurement@,
        tags.deep_view(),
        fields.deep_view(),
        timestamp as int,
    ));
    out
}

proof fn lemma_escape_concat(a: Seq<char>, b: Seq<char>)
    ensures
        escape_spaces(a + b) == escape_spaces(a) + escape_spaces(b),
    decreases b.len(),
{
    if b.len() == 0 {
        assert(a + b =~= a);
        assert(escape_spaces(a) + escape_spaces(b) =~= escape_spaces(a));
    } else {
        assert((a + b).drop_last() =~= a + b.drop_last());
        assert((a + b).last() == b.last());
        lemma_escape_concat(a, b.drop_last());
        assert(escape_spaces(a + b) =~= escape_spaces(a) + escape_spaces(b));
    }
}

proof fn lemma_escape_front(s: Seq<char>)
    requires
        s.len() > 0,
    ensures
        escape_spaces(s) == space_piece(s[0]) + escape_spaces(s.drop_first()),
{
    let first = seq![s[0]];
    lemma_escape_concat(first, s.drop_first());
    assert(first + s.drop_first() =~= s);
    assert(first.drop_last() =~= Seq::<char>::empty());
    assert(escape_spaces(first.drop_last()) == Seq::<char>::empty());
    assert(escape_spaces(first) =~= space_piece(s[0]));
}

/// Unescaping an escaped tag value gives the value back, whatever it holds.
pub proof fn lemma_unescape_escape(s: Seq<char>)
    ensures
        unescape_spaces(escape_spaces(s)) == s,
    decreases s.len(),
{
    if s.len() > 0 {
        lemma_escape_front(s);
        let rest = s.drop_first();
        let e = escape_spaces(s);
        let er = escape_spaces(rest);
        lemma_unescape_escape(rest);
        if s[0] == ' ' {
            assert(e.subrange(2, e.len() as int) =~= er);
        } else {
            if er.len() > 0 {
                lemma_escape_front(rest);
            }
            assert(e.drop_first() =~= er);
        }
        assert(unescape_spaces(e) =~= s);
    }
}

/// In an escaped tag value every space has a backslash right before it.
pub proof fn lemma_escaped_space_after_backslash(s: Seq<char>)
    ensures
        forall|i: int|
            0 <= i < escape_spaces(s).len() && #[trigger] escape_spaces(s)[i] == ' ' ==> i > 0
                && escape_spaces(s)[i - 1] == '\\',
    decreases s.len(),
{
    if s.len() > 0 {
        let front = escape_spaces(s.drop_last());
        let e = escape_spaces(s);
        lemma_escaped_space_after_backslash(s.drop_last());
        assert forall|i: int| 0 <= i < e.len() && #[trigger] e[i] == ' ' implies i > 0 && e[i
            - 1] == '\\' by {
            if i < front.len() {
                assert(e[i] == front[i]);
                assert(e[i - 1] == front[i - 1]);
            }
        }
    }
}

} // verus!
