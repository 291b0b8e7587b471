//! Strings as sequences of characters: trimming, splitting, decimal numbers.
use vstd::prelude::*;

verus! {

/// Appends one character to the end of the string.
pub assume_specification[ String::push ](s: &mut String, c: char)
    ensures
        final(s)@ == old(s)@.push(c),
;

/// The characters with the Unicode property White_Space.
pub open spec fn is_white(c: char) -> bool {
    ||| '\u{9}' <= c <= '\u{d}'
    ||| c == ' '
    ||| c == '\u{85}'
    ||| c == '\u{a0}'
    ||| c == '\u{1680}'
    ||| '\u{2000}' <= c <= '\u{200a}'
    ||| c == '\u{2028}'
    ||| c == '\u{2029}'
    ||| c == '\u{202f}'
    ||| c == '\u{205f}'
    ||| c == '\u{3000}'
}

/// Tells whether a character is white space.
pub fn white(c: char) -> (r: bool)
    ensures
        r == is_white(c),
{
    ('\u{9}' <= c && c <= '\u{d}') || c == ' ' || c == '\u{85}' || c == '\u{a0}' || c == '\u{1680}'
        || ('\u{2000}' <= c && c <= '\u{200a}') || c == '\u{2028}' || c == '\u{2029}' || c
        == '\u{202f}' || c == '\u{205f}' || c == '\u{3000}'
}

/// The characters of a string, in order.
pub fn chars_of(s: &str) -> (r: Vec<char>)
    ensures
        r@ == s@,
{
    let mut out: Vec<char> = Vec::new();
    for c in it: s.chars()
        invariant
            out@ == it.seq().take(it.index()),
            it.seq() == s@,
    {
        out.push(c);
        assert(it.seq().take(it.index() + 1) =~= it.seq().take(it.index()).push(c));
    }
    out
}

/// The string made of `v[from]`, ..., `v[to - 1]`.
pub fn string_of(v: &Vec<char>, from: usize, to: usize) -> (r: String)
    requires
        from <= to <= v@.len(),
    ensures
        r@ == v@.subrange(from as int, to as int),
{
    let mut out = String::new();
    let mut i: usize = from;
    while i < to
        invariant
            from <= i <= to <= v@.len(),
            out@ == v@.subrange(from as int, i as int),
        decreases to - i,
    {
        out.push(v[i]);
        assert(v@.subrange(from as int, i + 1) =~= v@.subrange(from as int, i as int).push(v@[i as int]));
        i += 1;
    }
    out
}

/// Tells whether two strings hold the same characters.
pub fn same(a: &str, b: &str) -> (r: bool)
    ensures
        r == (a@ == b@),
{
    a.to_owned() == b.to_owned()
}

// ---------------------------------------------------------------------------
// Trimming
// ---------------------------------------------------------------------------

/// `s` without the white space at its start.
pub open spec fn trim_start(s: Seq<char>) -> Seq<char>
    decreases s.len(),
{
    if s.len() > 0 && is_white(s[0]) {
        trim_start(s.drop_first())
    } else {
        s
    }
}

/// `s` without the white space at its end.
pub open spec fn trim_end(s: Seq<char>) -> Seq<char>
    decreases s.len(),
{
    if s.len() > 0 && is_white(s.last()) {
        trim_end(s.drop_last())
    } else {
        s
    }
}

/// `s` without the white space around it.
pub open spec fn trimmed(s: Seq<char>) -> Seq<char> {
    trim_end(trim_start(s))
}

/// Where the text of `v` starts once leading white space is skipped.
fn skip_white(v: &Vec<char>) -> (r: usize)
    ensures
        r <= v@.len(),
        trim_start(v@) == v@.skip(r as int),
{
    let mut i: usize = 0;
    assert(v@.skip(0) =~= v@);
    while i < v.len() && white(v[i])
        invariant
            i <= v@.len(),
            trim_start(v@) == trim_start(v@.skip(i as int)),
        decreases v@.len() - i,
    {
        assert(v@.skip(i as int).drop_first() =~= v@.skip(i + 1));
        i += 1;
    }
    i
}

/// Removes the white space at the start of a string.
pub fn trim_front(s: &str) -> (r: String)
    ensures
        r@ == trim_start(s@),
{
    let v = chars_of(s);
    let i = skip_white(&v);
    string_of(&v, i, v.len())
}

/// Removes the white space at both ends of a string.
pub fn trim(s: &str) -> (r: String)
    ensures
        r@ == trimmed(s@),
{
    let v = chars_of(s);
    let i = skip_white(&v);
    let mut j: usize = v.len();
    assert(v@.subrange(i as int, j as int) =~= v@.skip(i as int));
    while i < j && white(v[j - 1])
        invariant
            i <= j <= v@.len(),
            trimmed(v@) == trim_end(v@.subrange(i as int, j as int)),
        decreases j - i,
    {
        assert(v@.subrange(i as int, j as int).drop_last() =~= v@.subrange(i as int, j - 1));
        j -= 1;
    }
    string_of(&v, i, j)
}

proof fn lemma_trim_start(s: Seq<char>) -> (k: int)
    ensures
        0 <= k <= s.len(),
        trim_start(s) == s.skip(k),
        forall|i: int| 0 <= i < k ==> is_white(#[trigger] s[i]),
        k < s.len() ==> !is_white(s[k]),
    decreases s.len(),
{
    if s.len() > 0 && is_white(s[0]) {
        let k = lemma_trim_start(s.drop_first());
        assert(s.drop_first().skip(k) =~= s.skip(k + 1));
        assert forall|i: int| 0 <= i < k + 1 implies is_white(#[trigger] s[i]) by {
            if i > 0 {
                assert(s.drop_first()[i - 1] == s[i]);
            }
        }
        k + 1
    } else {
        assert(s.skip(0) =~= s);
        0
    }
}

proof fn lemma_trim_end(s: Seq<char>) -> (k: int)
    ensures
        0 <= k <= s.len(),
        trim_end(s) == s.take(k),
        forall|i: int| k <= i < s.len() ==> is_white(#[trigger] s[i]),
        k > 0 ==> !is_white(s[k - 1]),
    decreases s.len(),
{
    if s.len() > 0 && is_white(s.last()) {
        let k = lemma_trim_end(s.drop_last());
        assert(s.drop_last().take(k) =~= s.take(k));
        assert forall|i: int| k <= i < s.len() implies is_white(#[trigger] s[i]) by {
            if i < s.len() - 1 {
                assert(s.drop_last()[i] == s[i]);
            }
        }
        k
    } else {
        assert(s.take(s.len() as int) =~= s);
        s.len() as int
    }
}

/// Trimming takes white space away and nothing else: what is left is a piece of
/// the string that neither starts nor ends with white space, and all around the
/// piece is white space.
pub proof fn trimming_takes_only_white_space(s: Seq<char>)
    ensures
        exists|from: int, to: int|
            {
                &&& 0 <= from <= to <= s.len()
                &&& trimmed(s) == #[trigger] s.subrange(from, to)
                &&& forall|i: int| 0 <= i < from || to <= i < s.len() ==> is_white(#[trigger] s[i])
            },
        trimmed(s).len() > 0 ==> !is_white(trimmed(s)[0]) && !is_white(trimmed(s).last()),
{
    let from = lemma_trim_start(s);
    let t = s.skip(from);
    let k = lemma_trim_end(t);
    assert(t.take(k) =~= s.subrange(from, from + k));
    assert forall|i: int| 0 <= i < from || from + k <= i < s.len() implies is_white(
        #[trigger] s[i],
    ) by {
        if from + k <= i {
            assert(t[i - from] == s[i]);
        }
    }
    if k > 0 {
        assert(trimmed(s)[0] == s[from]);
        assert(trimmed(s).last() == t[k - 1]);
    }
}

/// `s` without the line feeds and carriage returns at its end.
pub open spec fn without_line_end(s: Seq<char>) -> Seq<char>
    decreases s.len(),
{
    if s.len() > 0 && (s.last() == '\n' || s.last() == '\r') {
        without_line_end(s.drop_last())
    } else {
        s
    }
}

/// Removes the line feeds and carriage returns at the end of a string.
pub fn trim_line_end(s: &str) -> (r: String)
    ensures
        r@ == without_line_end(s@),
{
    let v = chars_of(s);
    let mut j: usize = v.len();
    assert(v@.take(j as int) =~= v@);
    while 0 < j && (v[j - 1] == '\n' || v[j - 1] == '\r')
        invariant
            j <= v@.len(),
            without_line_end(v@) == without_line_end(v@.take(j as int)),
        decreases j,
    {
        assert(v@.take(j as int).drop_last() =~= v@.take(j - 1));
        j -= 1;
    }
    assert(v@.take(j as int) =~= v@.subrange(0, j as int));
    string_of(&v, 0, j)
}

// ---------------------------------------------------------------------------
// Prefixes and splitting
// ---------------------------------------------------------------------------

/// What follows the prefix `p` in `s`, if `s` starts with it.
pub open spec fn after_prefix(s: Seq<char>, p: Seq<char>) -> Option<Seq<char>> {
    if p.len() <= s.len() && s.take(p.len() as int) == p {
        Some(s.skip(p.len() as int))
    } else {
        None
    }
}

/// Whether `p` stands in `v` from index `at` on.
fn matches_at(v: &Vec<char>, at: usize, p: &Vec<char>) -> (r: bool)
    requires
        at <= v@.len(),
    ensures
        r == (after_prefix(v@.skip(at as int), p@) is Some),
{
    let ghost s = v@.skip(at as int);
    if v.len() - at < p.len() {
        return false;
    }
    let mut i: usize = 0;
    while i < p.len()
        invariant
            i <= p@.len(),
            at + p@.len() <= v.len(),
            s == v@.skip(at as int),
            forall|k: int| 0 <= k < i ==> s[k] == p@[k],
        decreases p@.len() - i,
    {
        if v[at + i] != p[i] {
            assert(s[i as int] != p@[i as int]);
            assert(s.take(p@.len() as int)[i as int] == s[i as int]);
            return false;
        }
        i += 1;
    }
    assert(s.take(p@.len() as int) =~= p@);
    true
}

/// Removes a prefix, if the string starts with it.
pub fn strip_prefix(s: &str, p: &str) -> (r: Option<String>)
    ensures
        match r {
            Some(t) => after_prefix(s@, p@) == Some(t@),
            None => after_prefix(s@, p@) is None,
        },
{
    let v = chars_of(s);
    let q = chars_of(p);
    assert(v@.skip(0) =~= v@);
    if matches_at(&v, 0, &q) {
        assert(v@.skip(q@.len() as int) =~= v@.subrange(q@.len() as int, v@.len() as int));
        Some(string_of(&v, q.len(), v.len()))
    } else {
        None
    }
}

/// The part of `s` before the first place where `p` stands, all of `s` where
/// `p` stands nowhere.
pub open spec fn before(s: Seq<char>, p: Seq<char>) -> Seq<char>
    decreases s.len(),
{
    if s.len() == 0 || after_prefix(s, p) is Some {
        Seq::empty()
    } else {
        seq![s[0]] + before(s.drop_first(), p)
    }
}

/// The part of a string before the first place where `p` stands.
pub fn take_before(s: &str, p: &str) -> (r: String)
    ensures
        r@ == before(s@, p@),
{
    let v = chars_of(s);
    let q = chars_of(p);
    let mut i: usize = 0;
    assert(v@.skip(0) =~= v@);
    assert(v@.take(0) + before(v@, q@) =~= before(v@, q@));
    while i < v.len() && !matches_at(&v, i, &q)
        invariant
            i <= v@.len(),
            before(v@, q@) == v@.take(i as int) + before(v@.skip(i as int), q@),
        decreases v@.len() - i,
    {
        assert(v@.skip(i as int).drop_first() =~= v@.skip(i + 1));
        assert(v@.take(i as int) + (seq![v@[i as int]] + before(v@.skip(i + 1), q@)) =~= v@.take(
            i + 1,
        ) + before(v@.skip(i + 1), q@));
        i += 1;
    }
    assert(v@.take(i as int) + Seq::<char>::empty() =~= v@.subrange(0, i as int));
    string_of(&v, 0, i)
}

/// The part of `s` behind the first `c`, if `c` occurs in it.
pub open spec fn after_char(s: Seq<char>, c: char) -> Option<Seq<char>>
    decreases s.len(),
{
    if s.len() == 0 {
        None
    } else if s[0] == c {
        Some(s.drop_first())
    } else {
        after_char(s.drop_first(), c)
    }
}

/// The part of a string behind the first `c`.
pub fn take_after(s: &str, c: char) -> (r: Option<String>)
    ensures
        match r {
            Some(t) => after_char(s@, c) == Some(t@),
            None => after_char(s@, c) is None,
        },
{
    let v = chars_of(s);
    let mut i: usize = 0;
    assert(v@.skip(0) =~= v@);
    while i < v.len()
        invariant
            i <= v@.len(),
            v@ == s@,
            after_char(v@, c) == after_char(v@.skip(i as int), c),
        decreases v@.len() - i,
    {
        assert(v@.skip(i as int).drop_first() =~= v@.skip(i + 1));
        if v[i] == c {
            assert(v@.skip(i + 1) =~= v@.subrange(i + 1, v@.len() as int));
            return Some(string_of(&v, i + 1, v.len()));
        }
        i += 1;
    }
    None
}

/// The characters of each string of a list.
pub open spec fn views(v: Seq<String>) -> Seq<Seq<char>> {
    v.map_values(|s: String| s@)
}

/// The parts of `s` between the occurrences of `sep`.
pub open spec fn split(s: Seq<char>, sep: char) -> Seq<Seq<char>>
    decreases s.len(),
{
    if s.len() == 0 {
        seq![Seq::empty()]
    } else {
        let parts = split(s.drop_last(), sep);
        if s.last() == sep {
            parts.push(Seq::empty())
        } else {
            parts.drop_last().push(parts.last().push(s.last()))
        }
    }
}

/// Splits a string at every occurrence of `sep`.
pub fn split_at_char(s: &str, sep: char) -> (r: Vec<String>)
    ensures
        views(r@) == split(s@, sep),
{
    let v = chars_of(s);
    let mut done: Vec<String> = Vec::new();
    let mut part = String::new();
    let mut i: usize = 0;
    assert(views(done@).push(part@) =~= split(v@.take(0), sep));
    while i < v.len()
        invariant
            i <= v@.len(),
            split(v@.take(i as int), sep) == views(done@).push(part@),
        decreases v@.len() - i,
    {
        let ghost parts = views(done@).push(part@);
        assert(v@.take(i + 1).drop_last() =~= v@.take(i as int));
        assert(parts.drop_last() =~= views(done@));
        if v[i] == sep {
            done.push(part);
            assert(views(done@) =~= parts);
            part = String::new();
        } else {
            part.push(v[i]);
        }
        i += 1;
    }
    assert(v@.take(i as int) =~= v@);
    let ghost parts = views(done@).push(part@);
    done.push(part);
    assert(views(done@) =~= parts);
    done
}

/// A line without the carriage return that precedes its line feed.
pub open spec fn without_cr(s: Seq<char>) -> Seq<char> {
    if s.len() > 0 && s.last() == '\r' {
        s.drop_last()
    } else {
        s
    }
}

/// The lines of `s`, without their ends: a line feed ends a line, a carriage
/// return before it belongs to the end, and the last line needs no end.
pub open spec fn lines(s: Seq<char>) -> Seq<Seq<char>> {
    let parts = split(s, '\n');
    let ended = parts.drop_last().map_values(|p: Seq<char>| without_cr(p));
    if parts.last().len() == 0 {
        ended
    } else {
        ended.push(parts.last())
    }
}

proof fn lemma_split_nonempty(s: Seq<char>, sep: char)
    ensures
        split(s, sep).len() > 0,
    decreases s.len(),
{
    if s.len() > 0 {
        lemma_split_nonempty(s.drop_last(), sep);
    }
}

/// Splits a string into its lines.
pub fn split_lines(s: &str) -> (r: Vec<String>)
    ensures
        views(r@) == lines(s@),
{
    let parts = split_at_char(s, '\n');
    proof {
        lemma_split_nonempty(s@, '\n');
        assert(parts@.len() == views(parts@).len());
    }
    let last: usize = parts.len() - 1;
    let mut out: Vec<String> = Vec::new();
    let mut i: usize = 0;
    let ghost ended = views(parts@).drop_last().map_values(|p: Seq<char>| without_cr(p));
    assert(views(out@) =~= ended.take(0));
    while i < last
        invariant
            i <= last,
            last == parts@.len() - 1,
            ended == views(parts@).drop_last().map_values(|p: Seq<char>| without_cr(p)),
            views(out@) == ended.take(i as int),
        decreases last - i,
    {
        let line = chars_of(&parts[i]);
        let end: usize = if line.len() > 0 && line[line.len() - 1] == '\r' {
            line.len() - 1
        } else {
            line.len()
        };
        assert(line@.subrange(0, end as int) =~= without_cr(line@));
        let ghost before_push = out@;
        out.push(string_of(&line, 0, end));
        assert(views(out@) =~= views(before_push).push(out@.last()@));
        assert(ended.take(i + 1) =~= ended.take(i as int).push(ended[i as int]));
        i += 1;
    }
    assert(ended.take(last as int) =~= ended);
    if !parts[last].as_str().is_empty() {
        let ghost before_push = out@;
        out.push(parts[last].clone());
        assert(views(out@) =~= views(before_push).push(out@.last()@));
    }
    out
}

/// The first word of `s`: what stands between leading white space and the next
/// white space, if there is anything.
pub open spec fn first_word(s: Seq<char>) -> Option<Seq<char>> {
    let t = trim_start(s);
    if t.len() == 0 {
        None
    } else {
        Some(until_white(t))
    }
}

/// `s` up to its first white space.
pub open spec fn until_white(s: Seq<char>) -> Seq<char>
    decreases s.len(),
{
    if s.len() == 0 || is_white(s[0]) {
        Seq::empty()
    } else {
        seq![s[0]] + until_white(s.drop_first())
    }
}

/// The first word of a string.
pub fn leading_word(s: &str) -> (r: Option<String>)
    ensures
        match r {
            Some(t) => first_word(s@) == Some(t@),
            None => first_word(s@) is None,
        },
{
    let v = chars_of(s);
    let from = skip_white(&v);
    if from == v.len() {
        return None;
    }
    let mut i: usize = from;
    let ghost t = v@.skip(from as int);
    assert(v@.subrange(from as int, i as int) + until_white(t) =~= until_white(t));
    while i < v.len() && !white(v[i])
        invariant
            from <= i <= v@.len(),
            until_white(t) == v@.subrange(from as int, i as int) + until_white(v@.skip(i as int)),
        decreases v@.len() - i,
    {
        assert(v@.skip(i as int).drop_first() =~= v@.skip(i + 1));
        assert(v@.subrange(from as int, i as int) + (seq![v@[i as int]] + until_white(v@.skip(i + 1)))
            =~= v@.subrange(from as int, i + 1) + until_white(v@.skip(i + 1)));
        i += 1;
    }
    assert(v@.subrange(from as int, i as int) + Seq::<char>::empty() =~= v@.subrange(
        from as int,
        i as int,
    ));
    Some(string_of(&v, from, i))
}

// ---------------------------------------------------------------------------
// ASCII case
// ---------------------------------------------------------------------------

/// A character with an ASCII capital turned into its small letter.
pub open spec fn lower(c: char) -> char {
    if 'A' <= c <= 'Z' {
        (c as u32 + 32) as char
    } else {
        c
    }
}

/// A string with its ASCII capitals turned into small letters.
pub open spec fn lowercase(s: Seq<char>) -> Seq<char> {
    s.map_values(|c: char| lower(c))
}

fn lower_char(c: char) -> (r: char)
    ensures
        r == lower(c),
{
    if 'A' <= c && c <= 'Z' {
        ((c as u8) + 32) as char
    } else {
        c
    }
}

/// Tells whether two strings are equal but for the case of ASCII letters.
pub fn same_ignoring_case(a: &str, b: &str) -> (r: bool)
    ensures
        r == (lowercase(a@) == lowercase(b@)),
{
    let v = chars_of(a);
    let w = chars_of(b);
    if v.len() != w.len() {
        assert(lowercase(a@).len() != lowercase(b@).len());
        return false;
    }
    let mut i: usize = 0;
    while i < v.len()
        invariant
            i <= v@.len() == w@.len(),
            v@ == a@,
            w@ == b@,
            forall|k: int| 0 <= k < i ==> lower(v@[k]) == lower(w@[k]),
        decreases v@.len() - i,
    {
        if lower_char(v[i]) != lower_char(w[i]) {
            assert(lowercase(a@)[i as int] != lowercase(b@)[i as int]);
            return false;
        }
        i += 1;
    }
    assert(lowercase(a@) =~= lowercase(b@));
    true
}

/// The upper case of a string, by the rules of Unicode.
pub uninterp spec fn uppercased(s: Seq<char>) -> Seq<char>;

/// A character with an ASCII small letter turned into its capital.
pub open spec fn capital(c: char) -> char {
    if 'a' <= c <= 'z' {
        (c as u32 - 32) as char
    } else {
        c
    }
}

/// A string with its ASCII small letters turned into capitals.
pub open spec fn capitals(s: Seq<char>) -> Seq<char> {
    s.map_values(|c: char| capital(c))
}

/// `str::to_uppercase`. A string of ASCII characters has its small letters
/// turned into capitals; of others the result has a name only.
#[verifier::external_body]
pub(crate) fn uppercase(s: &str) -> (r: String)
    ensures
        r@ == uppercased(s@),
        vstd::utf8::is_ascii_chars(s@) ==> r@ == capitals(s@),
{
    s.to_uppercase()
}

// ---------------------------------------------------------------------------
// Joining
// ---------------------------------------------------------------------------

/// The strings of `parts` with `sep` between each two of them.
pub open spec fn joined(parts: Seq<Seq<char>>, sep: Seq<char>) -> Seq<char>
    decreases parts.len(),
{
    if parts.len() == 0 {
        Seq::empty()
    } else if parts.len() == 1 {
        parts[0]
    } else {
        joined(parts.drop_last(), sep) + sep + parts.last()
    }
}

/// Joins strings, with `sep` between each two of them.
pub fn join(parts: &Vec<String>, sep: &str) -> (r: String)
    ensures
        r@ == joined(views(parts@), sep@),
{
    let mut out = String::new();
    let mut i: usize = 0;
    assert(views(parts@).take(0).len() == 0);
    while i < parts.len()
        invariant
            i <= parts@.len(),
            out@ == joined(views(parts@).take(i as int), sep@),
        decreases parts@.len() - i,
    {
        let ghost shown = views(parts@).take(i + 1);
        assert(shown.drop_last() =~= views(parts@).take(i as int));
        if i > 0 {
            out.append(sep);
        }
        out.append(&parts[i]);
        assert(out@ =~= joined(shown, sep@));
        i += 1;
    }
    assert(views(parts@).take(i as int) =~= views(parts@));
    out
}

// ---------------------------------------------------------------------------
// Decimal numbers
// ---------------------------------------------------------------------------

/// The character for the digit `d`.
pub open spec fn digit(d: nat) -> char {
    (48 + d) as char
}

pub open spec fn is_digit(c: char) -> bool {
    '0' <= c <= '9'
}

/// `n` in decimal, without leading zeros.
pub open spec fn decimal(n: nat) -> Seq<char>
    decreases n,
{
    if n < 10 {
        seq![digit(n)]
    } else {
        decimal(n / 10).push(digit(n % 10))
    }
}

/// Appends a number in decimal.
pub fn push_decimal(out: &mut String, n: u64)
    ensures
        final(out)@ == old(out)@ + decimal(n as nat),
    decreases n,
{
    let ghost start = out@;
    if n >= 10 {
        push_decimal(out, n / 10);
    }
    let d: u8 = 48 + (n % 10) as u8;
    out.push(d as char);
    assert(out@ =~= start + decimal(n as nat));
}

/// The number that a row of digits stands for.
pub open spec fn value(s: Seq<char>) -> nat
    decreases s.len(),
{
    if s.len() == 0 {
        0
    } else {
        value(s.drop_last()) * 10 + (s.last() as nat - 48) as nat
    }
}

pub open spec fn all_digits(s: Seq<char>) -> bool {
    forall|i: int| 0 <= i < s.len() ==> is_digit(#[trigger] s[i])
}

/// `s` without a plus sign at its start.
pub open spec fn without_plus(s: Seq<char>) -> Seq<char> {
    if s.len() > 0 && s[0] == '+' {
        s.drop_first()
    } else {
        s
    }
}

/// The 64-bit number that `s` writes in decimal: an optional plus sign, then
/// digits and nothing else.
pub open spec fn number(s: Seq<char>) -> Option<u64> {
    let t = without_plus(s);
    if t.len() > 0 && all_digits(t) && value(t) <= u64::MAX {
        Some(value(t) as u64)
    } else {
        None
    }
}

proof fn lemma_value_grows(s: Seq<char>, k: int)
    requires
        0 <= k <= s.len(),
    ensures
        value(s.take(k)) <= value(s),
    decreases s.len() - k,
{
    if k < s.len() {
        assert(s.take(k + 1).drop_last() =~= s.take(k));
        lemma_value_grows(s, k + 1);
    } else {
        assert(s.take(k) =~= s);
    }
}

/// Reads a 64-bit number in decimal.
pub fn parse_number(s: &str) -> (r: Option<u64>)
    ensures
        r == number(s@),
{
    let v = chars_of(s);
    let from: usize = if v.len() > 0 && v[0] == '+' {
        1
    } else {
        0
    };
    let ghost t = v@.skip(from as int);
    assert(t =~= without_plus(s@));
    if from == v.len() {
        return None;
    }
    let mut n: u64 = 0;
    let mut i: usize = from;
    assert(t.take(0).len() == 0);
    while i < v.len()
        invariant
            from <= i <= v@.len(),
            v@ == s@,
            t == v@.skip(from as int),
            t == without_plus(s@),
            n == value(t.take(i - from)),
            forall|k: int| 0 <= k < i - from ==> is_digit(t[k]),
        decreases v@.len() - i,
    {
        let c = v[i];
        assert(t[i - from] == c);
        if c < '0' || '9' < c {
            return None;
        }
        let d: u64 = c as u64 - 48;
        proof {
            assert(t.take(i - from + 1).drop_last() =~= t.take(i - from));
            lemma_value_grows(t, i - from + 1);
        }
        if n > (u64::MAX - d) / 10 {
            return None;
        }
        n = n * 10 + d;
        i += 1;
    }
    assert(t.take(i - from) =~= t);
    Some(n)
}

/// A number in decimal is a row of digits, and stands for the number.
pub proof fn decimal_stands_for_its_number(n: nat)
    ensures
        decimal(n).len() > 0,
        all_digits(decimal(n)),
        value(decimal(n)) == n,
    decreases n,
{
    if n < 10 {
        assert(decimal(n).drop_last().len() == 0);
        assert(value(decimal(n).drop_last()) == 0);
    } else {
        decimal_stands_for_its_number(n / 10);
        assert(decimal(n).drop_last() =~= decimal(n / 10));
    }
}

/// Reading a number back from its decimal form gives the number.
pub proof fn number_reads_decimal(n: u64)
    ensures
        number(decimal(n as nat)) == Some(n),
{
    decimal_stands_for_its_number(n as nat);
    assert(is_digit(decimal(n as nat)[0]));
}

/// A string that does not hold the separator is its own only part.
pub proof fn split_keeps_whole(s: Seq<char>, sep: char)
    requires
        !s.contains(sep),
    ensures
        split(s, sep) == seq![s],
    decreases s.len(),
{
    if s.len() > 0 {
        assert(s[s.len() - 1] == s.last());
        assert forall|i: int| 0 <= i < s.drop_last().len() implies s.drop_last()[i] != sep by {
            assert(s[i] == s.drop_last()[i]);
        }
        split_keeps_whole(s.drop_last(), sep);
        assert(s.drop_last().push(s.last()) =~= s);
        assert(split(s, sep) =~= seq![s]);
    } else {
        assert(s =~= Seq::empty());
    }
}

/// No part holds the separator.
pub proof fn split_parts_hold_no_separator(s: Seq<char>, sep: char)
    ensures
        split(s, sep).len() > 0,
        forall|i: int| 0 <= i < split(s, sep).len() ==> !(#[trigger] split(s, sep)[i]).contains(sep),
    decreases s.len(),
{
    if s.len() > 0 {
        split_parts_hold_no_separator(s.drop_last(), sep);
        let parts = split(s.drop_last(), sep);
        assert(!parts.last().contains(sep)) by {
            assert(parts.last() == parts[parts.len() - 1]);
        }
        assert(!Seq::<char>::empty().contains(sep));
        if s.last() != sep {
            let last = parts.last().push(s.last());
            assert forall|j: int| 0 <= j < last.len() implies last[j] != sep by {
                if j < parts.last().len() {
                    assert(last[j] == parts.last()[j]);
                }
            }
        }
    }
}

/// A last part without the separator is split off as it stands.
pub proof fn split_separates_last(s: Seq<char>, sep: char, part: Seq<char>)
    requires
        !part.contains(sep),
    ensures
        split(s.push(sep) + part, sep) == split(s, sep).push(part),
    decreases part.len(),
{
    let whole = s.push(sep) + part;
    if part.len() == 0 {
        assert(whole =~= s.push(sep));
        assert(s.push(sep).drop_last() =~= s);
        assert(part =~= Seq::empty());
    } else {
        assert(part[part.len() - 1] == part.last());
        assert forall|i: int| 0 <= i < part.drop_last().len() implies part.drop_last()[i] != sep by {
            assert(part[i] == part.drop_last()[i]);
        }
        split_separates_last(s, sep, part.drop_last());
        assert(whole.drop_last() =~= s.push(sep) + part.drop_last());
        assert(part.drop_last().push(part.last()) =~= part);
        assert(split(whole, sep) =~= split(s, sep).push(part));
    }
}

// ---------------------------------------------------------------------------
// What holds of every call
// ---------------------------------------------------------------------------

/// Whether `t` is what is left of `s` once all white space around it is gone.
pub open spec fn is_core(s: Seq<char>, t: Seq<char>) -> bool {
    exists|from: int, to: int|
        {
            &&& 0 <= from <= to <= s.len()
            &&& t == #[trigger] s.subrange(from, to)
            &&& forall|i: int| 0 <= i < from || to <= i < s.len() ==> is_white(#[trigger] s[i])
            &&& from < to ==> !is_white(s[from]) && !is_white(s[to - 1])
        }
}

/// A string is trimmed at both ends, and inside it nothing changes.
pub proof fn trim_keeps_the_core(s: &str, r: String)
    requires
        call_ensures(trim, (s,), r),
    ensures
        is_core(s@, r@),
{
    trimmed_is_core(s@);
}

/// What trimming leaves is the core.
pub proof fn trimmed_is_core(s: Seq<char>)
    ensures
        is_core(s, trimmed(s)),
{
    let from = lemma_trim_start(s);
    let t = s.skip(from);
    let k = lemma_trim_end(t);
    assert(t.take(k) =~= s.subrange(from, from + k));
    assert forall|i: int| 0 <= i < from || from + k <= i < s.len() implies is_white(
        #[trigger] s[i],
    ) by {
        if from + k <= i {
            assert(t[i - from] == s[i]);
        }
    }
    if k > 0 {
        assert(t[0] == s[from]);
        assert(t[k - 1] == s[from + k - 1]);
    }
}

/// There is one core: two pieces of a string that are both left once the white
/// space around is gone are the same.
pub proof fn core_is_one(s: Seq<char>, t: Seq<char>, u: Seq<char>)
    requires
        is_core(s, t),
        is_core(s, u),
    ensures
        t == u,
{
    let (a, b) = choose|from: int, to: int|
        {
            &&& 0 <= from <= to <= s.len()
            &&& t == #[trigger] s.subrange(from, to)
            &&& forall|i: int| 0 <= i < from || to <= i < s.len() ==> is_white(#[trigger] s[i])
            &&& from < to ==> !is_white(s[from]) && !is_white(s[to - 1])
        };
    let (c, d) = choose|from: int, to: int|
        {
            &&& 0 <= from <= to <= s.len()
            &&& u == #[trigger] s.subrange(from, to)
            &&& forall|i: int| 0 <= i < from || to <= i < s.len() ==> is_white(#[trigger] s[i])
            &&& from < to ==> !is_white(s[from]) && !is_white(s[to - 1])
        };
    if a < b {
        assert(!is_white(s[a]) && !is_white(s[b - 1]));
        if c < d {
            assert(!is_white(s[c]) && !is_white(s[d - 1]));
            assert(a == c && b == d);
        } else {
            assert(is_white(s[a]));
        }
    } else if c < d {
        assert(is_white(s[c]));
    } else {
        assert(t =~= u);
    }
}

/// Only white space at the start goes.
pub proof fn trim_front_keeps_the_rest(s: &str, r: String)
    requires
        call_ensures(trim_front, (s,), r),
    ensures
        r@.len() <= s@.len(),
        r@ == s@.skip(s@.len() - r@.len()),
        forall|i: int| 0 <= i < s@.len() - r@.len() ==> is_white(#[trigger] s@[i]),
        r@.len() > 0 ==> !is_white(r@[0]),
{
    let k = lemma_trim_start(s@);
}

/// Line ends are taken off, all of them and nothing else.
pub proof fn line_ends_are_taken_off(s: Seq<char>)
    ensures
        is_without_line_end(s, without_line_end(s)),
    decreases s.len(),
{
    if s.len() > 0 && (s.last() == '\n' || s.last() == '\r') {
        let d = s.drop_last();
        line_ends_are_taken_off(d);
        let t = without_line_end(d);
        assert(d.take(t.len() as int) =~= s.take(t.len() as int));
        assert forall|i: int| t.len() <= i < s.len() implies #[trigger] s[i] == '\n' || s[i]
            == '\r' by {
            if i < d.len() {
                assert(d[i] == s[i]);
            }
        }
    } else {
        assert(s.take(s.len() as int) =~= s);
    }
}

/// Whether `t` is `s` without the line feeds and carriage returns at its end,
/// all of them and nothing else.
pub open spec fn is_without_line_end(s: Seq<char>, t: Seq<char>) -> bool {
    &&& t.len() <= s.len()
    &&& t == s.take(t.len() as int)
    &&& forall|i: int| t.len() <= i < s.len() ==> #[trigger] s[i] == '\n' || s[i] == '\r'
    &&& t.len() > 0 ==> t.last() != '\n' && t.last() != '\r'
}

/// Line ends at the end go, all of them and nothing else.
pub proof fn trim_line_end_keeps_the_rest(s: &str, r: String)
    requires
        call_ensures(trim_line_end, (s,), r),
    ensures
        is_without_line_end(s@, r@),
{
    line_ends_are_taken_off(s@);
}

/// What follows a prefix is the string without it.
pub proof fn prefix_and_rest_are_the_string(s: &str, p: &str, r: Option<String>)
    requires
        call_ensures(strip_prefix, (s, p), r),
    ensures
        match r {
            Some(t) => s@ == p@ + t@,
            None => forall|t: Seq<char>| s@ != #[trigger] (p@ + t),
        },
{
    if r is Some {
        assert(s@ =~= p@ + r->0@);
    } else {
        assert forall|t: Seq<char>| s@ != #[trigger] (p@ + t) by {
            if s@ == p@ + t {
                assert(s@.take(p@.len() as int) =~= p@);
            }
        }
    }
}

proof fn lemma_before(s: Seq<char>, p: Seq<char>)
    ensures
        before(s, p).len() <= s.len(),
        before(s, p) == s.take(before(s, p).len() as int),
        before(s, p).len() < s.len() ==> p.is_prefix_of(s.skip(before(s, p).len() as int)),
        forall|i: int| 0 <= i < before(s, p).len() ==> !p.is_prefix_of(#[trigger] s.skip(i)),
    decreases s.len(),
{
    assert(s.skip(0) =~= s);
    if s.len() == 0 || after_prefix(s, p) is Some {
        assert(s.take(0) =~= Seq::empty());
        if s.len() > 0 {
            assert(p =~= s.subrange(0, p.len() as int));
        }
    } else {
        let d = s.drop_first();
        lemma_before(d, p);
        let n = before(d, p).len() as int;
        assert(before(s, p) =~= s.take(n + 1));
        assert(d.skip(n) =~= s.skip(n + 1));
        assert forall|i: int| 0 <= i < n + 1 implies !p.is_prefix_of(#[trigger] s.skip(i)) by {
            if i == 0 {
                if p.is_prefix_of(s) {
                    assert(s.take(p.len() as int) =~= p);
                }
            } else {
                assert(s.skip(i) =~= d.skip(i - 1));
            }
        }
    }
}

/// What stands before a text is all up to its first place.
pub proof fn before_ends_at_the_first_place(s: &str, p: &str, r: String)
    requires
        call_ensures(take_before, (s, p), r),
    ensures
        r@.len() <= s@.len(),
        r@ == s@.take(r@.len() as int),
        r@.len() < s@.len() ==> p@.is_prefix_of(s@.skip(r@.len() as int)),
        forall|i: int| 0 <= i < r@.len() ==> !p@.is_prefix_of(#[trigger] s@.skip(i)),
{
    lemma_before(s@, p@);
}

proof fn lemma_after_char(s: Seq<char>, c: char)
    ensures
        match after_char(s, c) {
            Some(t) => t.len() < s.len() && s[s.len() - t.len() - 1] == c && t == s.skip(
                s.len() - t.len(),
            ) && forall|i: int| 0 <= i < s.len() - t.len() - 1 ==> #[trigger] s[i] != c,
            None => forall|i: int| 0 <= i < s.len() ==> #[trigger] s[i] != c,
        },
    decreases s.len(),
{
    if s.len() > 0 && s[0] != c {
        let d = s.drop_first();
        lemma_after_char(d, c);
        match after_char(d, c) {
            Some(t) => {
                assert(d.skip(d.len() - t.len()) =~= s.skip(s.len() - t.len()));
                assert(d[d.len() - t.len() - 1] == s[s.len() - t.len() - 1]);
                assert forall|i: int| 0 <= i < s.len() - t.len() - 1 implies #[trigger] s[i] != c by {
                    if i > 0 {
                        assert(d[i - 1] == s[i]);
                    }
                }
            },
            None => {
                assert forall|i: int| 0 <= i < s.len() implies #[trigger] s[i] != c by {
                    if i > 0 {
                        assert(d[i - 1] == s[i]);
                    }
                }
            },
        }
    } else if s.len() > 0 {
        assert(s.drop_first() =~= s.skip(1));
    }
}

/// What stands behind a character is all from its first place on.
pub proof fn after_starts_at_the_first_place(s: &str, c: char, r: Option<String>)
    requires
        call_ensures(take_after, (s, c), r),
    ensures
        match r {
            Some(t) => t@.len() < s@.len() && s@[s@.len() - t@.len() - 1] == c && t@ == s@.skip(
                s@.len() - t@.len(),
            ) && forall|i: int| 0 <= i < s@.len() - t@.len() - 1 ==> #[trigger] s@[i] != c,
            None => forall|i: int| 0 <= i < s@.len() ==> #[trigger] s@[i] != c,
        },
{
    lemma_after_char(s@, c);
}

/// One string alone is joined to itself, none to nothing, and two rows of
/// strings with the separator between what they are joined to.
pub proof fn joining_puts_the_separator_between(a: Seq<Seq<char>>, b: Seq<Seq<char>>, sep: Seq<char>)
    ensures
        a.len() == 0 ==> joined(a, sep) == Seq::<char>::empty(),
        a.len() == 1 ==> joined(a, sep) == a[0],
        a.len() > 0 && b.len() > 0 ==> joined(a + b, sep) == joined(a, sep) + sep + joined(b, sep),
    decreases b.len(),
{
    if a.len() > 0 && b.len() > 0 {
        let all = a + b;
        assert(all.last() == b.last());
        if b.len() == 1 {
            assert(all.drop_last() =~= a);
        } else {
            joining_puts_the_separator_between(a, b.drop_last(), sep);
            assert(all.drop_last() =~= a + b.drop_last());
            assert(joined(all, sep) =~= joined(a, sep) + sep + joined(b, sep));
        }
    }
}

/// What was split can be put together again: the parts, with the separator
/// between them, are the string, and none of them holds the separator.
pub proof fn splitting_can_be_undone(s: &str, sep: char, r: Vec<String>)
    requires
        call_ensures(split_at_char, (s, sep), r),
    ensures
        r@.len() > 0,
        joined(views(r@), seq![sep]) == s@,
        forall|i: int| 0 <= i < r@.len() ==> !(#[trigger] r@[i])@.contains(sep),
{
    split_is_joined(s@, sep);
    split_parts_hold_no_separator(s@, sep);
    assert(views(r@).len() == r@.len());
    assert forall|i: int| 0 <= i < r@.len() implies !(#[trigger] r@[i])@.contains(sep) by {
        assert(views(r@)[i] == r@[i]@);
    }
}

/// The parts of a string, with the separator between them, are the string.
pub proof fn split_is_joined(s: Seq<char>, sep: char)
    ensures
        joined(split(s, sep), seq![sep]) == s,
    decreases s.len(),
{
    lemma_split_nonempty(s, sep);
    if s.len() > 0 {
        let d = s.drop_last();
        lemma_split_nonempty(d, sep);
        split_is_joined(d, sep);
        let parts = split(d, sep);
        let all = split(s, sep);
        if s.last() == sep {
            assert(all.drop_last() =~= parts);
            assert(joined(all, seq![sep]) =~= d.push(sep));
        } else {
            assert(all.drop_last() =~= parts.drop_last());
            assert(joined(all, seq![sep]) =~= d.push(s.last()));
        }
        assert(d.push(s.last()) =~= s);
    } else {
        assert(joined(split(s, sep), seq![sep]) =~= s);
    }
}

/// Each line feed ends a line, with the carriage return before it; what is
/// behind the last one is a line if it is not empty, with all that it holds.
pub proof fn line_feeds_end_lines(line: Seq<char>, rest: Seq<char>)
    requires
        !line.contains('\n'),
    ensures
        lines(line) == (if line.len() == 0 {
            Seq::empty()
        } else {
            seq![line]
        }),
        lines(line.push('\n') + rest) == seq![
            if line.len() > 0 && line.last() == '\r' {
                line.take(line.len() - 1)
            } else {
                line
            },
        ] + lines(rest),
{
    split_keeps_whole(line, '\n');
    assert(split(line, '\n').drop_last().len() == 0);
    assert(lines(line) =~= (if line.len() == 0 {
        Seq::empty()
    } else {
        seq![line]
    }));
    lemma_split_first(line, '\n', rest);
    lemma_split_nonempty(rest, '\n');
    let whole = line.push('\n') + rest;
    let parts = split(whole, '\n');
    assert(parts == seq![line] + split(rest, '\n'));
    assert(parts.last() == split(rest, '\n').last());
    assert(parts[0] == line);
    if line.len() > 0 {
        assert(line.take(line.len() - 1) =~= line.drop_last());
    }
    assert(lines(whole) =~= seq![without_cr(line)] + lines(rest));
}

proof fn lemma_split_first(line: Seq<char>, sep: char, rest: Seq<char>)
    requires
        !line.contains(sep),
    ensures
        split(line.push(sep) + rest, sep) == seq![line] + split(rest, sep),
    decreases rest.len(),
{
    let whole = line.push(sep) + rest;
    lemma_split_nonempty(rest, sep);
    if rest.len() == 0 {
        assert(whole.drop_last() =~= line);
        split_keeps_whole(line, sep);
        assert(split(whole, sep) =~= seq![line] + split(rest, sep));
    } else {
        let d = rest.drop_last();
        lemma_split_first(line, sep, d);
        lemma_split_nonempty(d, sep);
        assert(whole.drop_last() =~= line.push(sep) + d);
        let p = split(d, sep);
        assert((seq![line] + p).last() == p.last());
        assert((seq![line] + p).drop_last() =~= seq![line] + p.drop_last());
        assert(split(whole, sep) =~= seq![line] + split(rest, sep));
    }
}

/// The lines of a string are those that its line feeds end.
pub proof fn split_lines_gives_lines(s: &str, r: Vec<String>)
    requires
        call_ensures(split_lines, (s,), r),
    ensures
        views(r@) == lines(s@),
{
}

proof fn lemma_until_white(s: Seq<char>)
    ensures
        until_white(s).len() <= s.len(),
        until_white(s) == s.take(until_white(s).len() as int),
        forall|i: int| 0 <= i < until_white(s).len() ==> !is_white(#[trigger] s[i]),
        until_white(s).len() < s.len() ==> is_white(s[until_white(s).len() as int]),
    decreases s.len(),
{
    if s.len() == 0 || is_white(s[0]) {
        assert(s.take(0) =~= Seq::empty());
    } else {
        let d = s.drop_first();
        lemma_until_white(d);
        let n = until_white(d).len() as int;
        assert(until_white(s) =~= s.take(n + 1));
        assert forall|i: int| 0 <= i < n + 1 implies !is_white(#[trigger] s[i]) by {
            if i > 0 {
                assert(d[i - 1] == s[i]);
            }
        }
        if n < d.len() {
            assert(d[n] == s[n + 1]);
        }
    }
}

/// Whether `w` is the first word of `s`: behind white space alone it stands
/// whole, up to white space or the end.
pub open spec fn is_first_word(s: Seq<char>, w: Seq<char>) -> bool {
    exists|from: int|
        {
            &&& 0 <= from && from + w.len() <= s.len() && w.len() > 0
            &&& w == #[trigger] s.subrange(from, from + w.len())
            &&& forall|i: int| 0 <= i < from ==> is_white(#[trigger] s[i])
            &&& forall|i: int| 0 <= i < w.len() ==> !is_white(#[trigger] w[i])
            &&& from + w.len() < s.len() ==> is_white(s[from + w.len()])
        }
}

/// The first word stands whole behind white space alone.
pub proof fn first_words_stand_first(s: Seq<char>)
    ensures
        match first_word(s) {
            Some(w) => is_first_word(s, w),
            None => forall|i: int| 0 <= i < s.len() ==> is_white(#[trigger] s[i]),
        },
{
    let from = lemma_trim_start(s);
    let t = s.skip(from);
    lemma_until_white(t);
    if t.len() > 0 {
        let w = until_white(t);
        assert(t[0] == s[from]);
        assert(w.len() > 0);
        assert(w =~= s.subrange(from, from + w.len()));
        assert forall|i: int| 0 <= i < w.len() implies !is_white(#[trigger] w[i]) by {
            assert(w[i] == t[i]);
        }
        if from + w.len() < s.len() {
            assert(t[w.len() as int] == s[from + w.len()]);
        }
    }
}

/// The first word stands whole, and there is none in white space alone.
pub proof fn leading_word_is_the_first(s: &str, r: Option<String>)
    requires
        call_ensures(leading_word, (s,), r),
    ensures
        match r {
            Some(w) => is_first_word(s@, w@),
            None => forall|i: int| 0 <= i < s@.len() ==> is_white(#[trigger] s@[i]),
        },
{
    first_words_stand_first(s@);
}

/// Only the twenty-six ASCII capitals change, each to the letter 32 places on.
pub proof fn small_letters_stand_for_capitals(s: Seq<char>)
    ensures
        lowercase(s).len() == s.len(),
        forall|i: int|
            0 <= i < s.len() ==> #[trigger] lowercase(s)[i] as int == (if 65 <= s[i] as int
                <= 90 {
                s[i] as int + 32
            } else {
                s[i] as int
            }),
        lowercase(lowercase(s)) == lowercase(s),
{
    assert(lowercase(lowercase(s)) =~= lowercase(s));
}

/// Only the twenty-six ASCII small letters change, each to the letter 32 places
/// back.
pub proof fn capitals_stand_for_small_letters(s: Seq<char>)
    ensures
        capitals(s).len() == s.len(),
        forall|i: int|
            0 <= i < s.len() ==> #[trigger] capitals(s)[i] as int == (if 97 <= s[i] as int
                <= 122 {
                s[i] as int - 32
            } else {
                s[i] as int
            }),
{
}

/// Strings are the same but for case where each pair of characters is equal, or
/// a capital and its small letter.
pub proof fn case_is_all_that_is_ignored(a: &str, b: &str, r: bool)
    requires
        call_ensures(same_ignoring_case, (a, b), r),
    ensures
        r <==> a@.len() == b@.len() && forall|i: int|
            0 <= i < a@.len() ==> {
                let (x, y) = (#[trigger] a@[i] as int, b@[i] as int);
                x == y || (65 <= x <= 90 && y == x + 32) || (65 <= y <= 90 && x == y + 32)
            },
{
    let (la, lb) = (lowercase(a@), lowercase(b@));
    if r {
        assert forall|i: int| 0 <= i < a@.len() implies {
            let (x, y) = (#[trigger] a@[i] as int, b@[i] as int);
            x == y || (65 <= x <= 90 && y == x + 32) || (65 <= y <= 90 && x == y + 32)
        } by {
            assert(la[i] == lb[i]);
            assert(la[i] == lower(a@[i]) && lb[i] == lower(b@[i]));
        }
    } else if a@.len() == b@.len() && forall|i: int|
        0 <= i < a@.len() ==> {
            let (x, y) = (#[trigger] a@[i] as int, b@[i] as int);
            x == y || (65 <= x <= 90 && y == x + 32) || (65 <= y <= 90 && x == y + 32)
        } {
        assert forall|i: int| 0 <= i < la.len() implies la[i] == lb[i] by {
            let (x, y) = (a@[i] as int, b@[i] as int);
            assert(x == y || (65 <= x <= 90 && y == x + 32) || (65 <= y <= 90 && x == y + 32));
        }
        assert(la =~= lb);
    }
}

/// A number below ten is written as its digit, and any other as the number of
/// tens and then the digit of the ones.
pub proof fn decimal_is_written_by_tens(n: nat, d: nat)
    requires
        d < 10,
    ensures
        decimal(d).len() == 1 && decimal(d)[0] as int == 48 + d,
        n > 0 ==> decimal(10 * n + d) == decimal(n) + decimal(d),
{
    if n > 0 {
        assert((10 * n + d) / 10 == n && (10 * n + d) % 10 == d);
        assert(decimal(10 * n + d) =~= decimal(n) + decimal(d));
    }
}

/// Appending a number leaves what was there, and writes the number behind it.
pub proof fn push_decimal_appends(out: &mut String, n: u64)
    requires
        call_ensures(push_decimal, (out, n), ()),
    ensures
        final(out)@.take(old(out)@.len() as int) == old(out)@,
        final(out)@.skip(old(out)@.len() as int) == decimal(n as nat),
{
    assert(final(out)@.take(old(out)@.len() as int) =~= old(out)@);
    assert(final(out)@.skip(old(out)@.len() as int) =~= decimal(n as nat));
}

/// A row of digits stands for ten times what stands before the last one and
/// that digit more.
pub proof fn value_counts_by_tens(s: Seq<char>, c: char)
    requires
        '0' <= c <= '9',
    ensures
        value(Seq::<char>::empty()) == 0,
        value(s.push(c)) == 10 * value(s) + (c as int - 48),
{
    assert(s.push(c).drop_last() =~= s);
}

/// A number is read where there are digits, at least one and nothing else but a
/// plus sign before them, and where it fits. `t` is the string without the sign.
pub proof fn numbers_are_digits(s: &str, t: Seq<char>, r: Option<u64>)
    requires
        call_ensures(parse_number, (s,), r),
        s@ == seq!['+'] + t || (s@ == t && !seq!['+'].is_prefix_of(t)),
    ensures
        match r {
            Some(n) => t.len() > 0 && n == value(t) && forall|i: int|
                0 <= i < t.len() ==> '0' <= #[trigger] t[i] <= '9',
            None => t.len() == 0 || value(t) > 0xffff_ffff_ffff_ffff || exists|i: int|
                0 <= i < t.len() && !('0' <= #[trigger] t[i] <= '9'),
        },
{
    if s@ == seq!['+'] + t {
        assert(s@[0] == '+');
        assert(s@.drop_first() =~= t);
    } else if t.len() > 0 && t[0] == '+' {
        assert(seq!['+'] =~= t.subrange(0, 1));
    }
    assert(without_plus(s@) == t);
    if r is None && t.len() > 0 && !all_digits(t) {
        let i = choose|i: int| 0 <= i < t.len() && !is_digit(#[trigger] t[i]);
        assert(!('0' <= t[i] <= '9'));
    }
    if r is Some {
        assert forall|i: int| 0 <= i < t.len() implies '0' <= #[trigger] t[i] <= '9' by {
            assert(is_digit(t[i]));
        }
    }
}

/// Strings are the same where all their characters are.
pub proof fn same_strings_have_the_same_characters(a: &str, b: &str, r: bool)
    requires
        call_ensures(same, (a, b), r),
    ensures
        r <==> a@.len() == b@.len() && forall|i: int| 0 <= i < a@.len() ==> #[trigger] a@[i] == b@[i],
{
    if a@.len() == b@.len() && forall|i: int| 0 <= i < a@.len() ==> #[trigger] a@[i] == b@[i] {
        assert(a@ =~= b@);
    }
}

/// Joined strings stand in order, with the separator between each two.
pub proof fn join_keeps_the_order(parts: Vec<String>, sep: &str, r: String)
    requires
        call_ensures(join, (&parts, sep), r),
    ensures
        r@ == joined(views(parts@), sep@),
        parts@.len() == 1 ==> r@ == parts@[0]@,
{
    if parts@.len() == 1 {
        assert(views(parts@)[0] == parts@[0]@);
    }
}

/// White space is what Unicode calls so, by its code points.
pub proof fn white_space_is_that_of_unicode(c: char, r: bool)
    requires
        call_ensures(white, (c,), r),
    ensures
        r <==> {
            let n = c as int;
            n == 9 || n == 10 || n == 11 || n == 12 || n == 13 || n == 32 || n == 133 || n == 160
                || n == 5760 || 8192 <= n <= 8202 || n == 8232 || n == 8233 || n == 8239 || n
                == 8287 || n == 12288
        },
{
}

/// A string is taken apart into its characters, and put together from a range
/// of them, in their order.
pub proof fn characters_keep_their_order(
    s: &str,
    v: Vec<char>,
    from: usize,
    to: usize,
    r: String,
)
    requires
        call_ensures(chars_of, (s,), v),
        from <= to <= v@.len(),
        call_ensures(string_of, (&v, from, to), r),
    ensures
        v@.len() == s@.len(),
        forall|i: int| 0 <= i < v@.len() ==> #[trigger] v@[i] == s@[i],
        r@.len() == to - from,
        forall|i: int| 0 <= i < r@.len() ==> #[trigger] r@[i] == s@[from + i],
{
}

} // verus!
