//! Text as a sequence of characters, and the few operations on it that the
//! rest of the library is stated over.
use vstd::prelude::*;
use vstd::string::*;

verus! {

/// `String::push` appends one character to the end of the string.
pub assume_specification[ String::push ](s: &mut String, c: char)
    ensures
        final(s)@ == old(s)@.push(c),
;

/// The characters with the Unicode property `White_Space`.
pub open spec fn is_space(c: char) -> bool {
    ||| '\u{9}' <= c <= '\u{d}'
    ||| c == ' '
    ||| c == '\u{85}'
    ||| c == '\u{a0}'
    ||| c == '\u{1680}'
    ||| '\u{2000}' <= c <= '\u{200a}'
    ||| c == '\u{2028}'
    ||| c == '\u{2029}'
    ||| c == '\u{202f}'
    ||| c == '\u{205f}'
    ||| c == '\u{3000}'
}

pub fn char_is_space(c: char) -> (r: bool)
    ensures
        r == is_space(c),
{
    ('\u{9}' <= c && c <= '\u{d}') || c == ' ' || c == '\u{85}' || c == '\u{a0}' || c == '\u{1680}'
        || ('\u{2000}' <= c && c <= '\u{200a}') || c == '\u{2028}' || c == '\u{2029}' || c
        == '\u{202f}' || c == '\u{205f}' || c == '\u{3000}'
}

/// The characters of the Unicode general category `Cc`.
pub open spec fn is_control(c: char) -> bool {
    c <= '\u{1f}' || '\u{7f}' <= c <= '\u{9f}'
}

pub fn char_is_control(c: char) -> (r: bool)
    ensures
        r == is_control(c),
{
    c <= '\u{1f}' || ('\u{7f}' <= c && c <= '\u{9f}')
}

/// The ASCII lower-case form of a character; other characters stay.
pub open spec fn lower_char(c: char) -> char {
    if 'A' <= c <= 'Z' {
        (c as u32 + 32) as char
    } else {
        c
    }
}

pub fn char_to_lower(c: char) -> (r: char)
    ensures
        r == lower_char(c),
{
    if 'A' <= c && c <= 'Z' {
        let low: u8 = c as u8 + 32;
        low as char
    } else {
        c
    }
}

/// The text in ASCII lower case.
pub open spec fn lower(s: Seq<char>) -> Seq<char> {
    Seq::new(s.len(), |i: int| lower_char(s[i]))
}

pub open spec fn is_digit(c: char) -> bool {
    '0' <= c <= '9'
}

pub open spec fn is_ascii_alnum(c: char) -> bool {
    is_digit(c) || 'a' <= c <= 'z' || 'A' <= c <= 'Z'
}

pub fn char_is_alnum(c: char) -> (r: bool)
    ensures
        r == is_ascii_alnum(c),
{
    ('0' <= c && c <= '9') || ('a' <= c && c <= 'z') || ('A' <= c && c <= 'Z')
}

/// All characters of a string, in order.
pub fn chars_of(s: &str) -> (r: Vec<char>)
    ensures
        r@ == s@,
{
    let mut out: Vec<char> = Vec::new();
    for c in it: s.chars()
        invariant
            out@ == s@.take(it.index()),
            it.seq() == s@,
    {
        out.push(c);
    }
    assert(s@.take(s@.len() as int) =~= s@);
    out
}

/// The string of the characters `cs[from..to]`.
pub fn text_range(cs: &Vec<char>, from: usize, to: usize) -> (r: String)
    requires
        from <= to <= cs.len(),
    ensures
        r@ == cs@.subrange(from as int, to as int),
{
    let mut out = String::new();
    let mut i: usize = from;
    while i < to
        invariant
            from <= i <= to <= cs.len(),
            out@ == cs@.subrange(from as int, i as int),
        decreases to - i,
    {
        out.push(cs[i]);
        i = i + 1;
    }
    out
}

/// The string of all of `cs`.
pub fn text_of(cs: &Vec<char>) -> (r: String)
    ensures
        r@ == cs@,
{
    text_range(cs, 0, cs.len())
}

/// Whether two strings hold the same characters.
pub fn same_text(a: &str, b: &str) -> (r: bool)
    ensures
        r == (a@ == b@),
{
    a.to_owned() == b.to_owned()
}

pub fn to_lower(s: &str) -> (r: String)
    ensures
        r@ == lower(s@),
{
    let cs = chars_of(s);
    let mut out = String::new();
    let mut i: usize = 0;
    while i < cs.len()
        invariant
            i <= cs.len(),
            cs@ == s@,
            out@ == lower(s@).take(i as int),
        decreases cs.len() - i,
    {
        out.push(char_to_lower(cs[i]));
        i = i + 1;
    }
    out
}

/// Equality of two texts up to ASCII case.
pub open spec fn same_ignoring_case(a: Seq<char>, b: Seq<char>) -> bool {
    lower(a) == lower(b)
}

pub fn eq_ignore_case(a: &str, b: &str) -> (r: bool)
    ensures
        r == same_ignoring_case(a@, b@),
{
    to_lower(a) == to_lower(b)
}

/// The text without its leading white space.
pub open spec fn trim_start(s: Seq<char>) -> Seq<char>
    decreases s.len(),
{
    if s.len() > 0 && is_space(s[0]) {
        trim_start(s.skip(1))
    } else {
        s
    }
}

/// The text without its trailing white space.
pub open spec fn trim_end(s: Seq<char>) -> Seq<char>
    decreases s.len(),
{
    if s.len() > 0 && is_space(s.last()) {
        trim_end(s.drop_last())
    } else {
        s
    }
}

/// The text without white space at either end.
pub open spec fn trim(s: Seq<char>) -> Seq<char> {
    trim_end(trim_start(s))
}

/// The text without its trailing full stops.
pub open spec fn trim_end_dots(s: Seq<char>) -> Seq<char>
    decreases s.len(),
{
    if s.len() > 0 && s.last() == '.' {
        trim_end_dots(s.drop_last())
    } else {
        s
    }
}

pub fn trimmed(cs: &Vec<char>) -> (r: Vec<char>)
    ensures
        r@ == trim(cs@),
{
    let mut from: usize = 0;
    assert(cs@.skip(0) =~= cs@);
    while from < cs.len() && char_is_space(cs[from])
        invariant
            from <= cs.len(),
            trim_start(cs@) == trim_start(cs@.skip(from as int)),
        decreases cs.len() - from,
    {
        proof {
            assert(cs@.skip(from as int).skip(1) =~= cs@.skip(from + 1));
        }
        from = from + 1;
    }
    let ghost kept = cs@.skip(from as int);
    assert(trim_start(cs@) == kept);
    let mut to: usize = cs.len();
    assert(kept =~= cs@.subrange(from as int, to as int));
    while to > from && char_is_space(cs[to - 1])
        invariant
            from <= to <= cs.len(),
            trim_end(kept) == trim_end(cs@.subrange(from as int, to as int)),
        decreases to,
    {
        proof {
            let here = cs@.subrange(from as int, to as int);
            assert(here.last() == cs@[to - 1]);
            assert(here.drop_last() =~= cs@.subrange(from as int, to - 1));
        }
        to = to - 1;
    }
    proof {
        let here = cs@.subrange(from as int, to as int);
        if here.len() > 0 {
            assert(here.last() == cs@[to - 1]);
        }
    }
    chars_range(cs, from, to)
}

pub fn chars_range(cs: &Vec<char>, from: usize, to: usize) -> (r: Vec<char>)
    requires
        from <= to <= cs.len(),
    ensures
        r@ == cs@.subrange(from as int, to as int),
{
    let mut out: Vec<char> = Vec::new();
    let mut i: usize = from;
    while i < to
        invariant
            from <= i <= to <= cs.len(),
            out@ == cs@.subrange(from as int, i as int),
        decreases to - i,
    {
        out.push(cs[i]);
        i = i + 1;
    }
    out
}

pub fn without_end_dots(cs: &Vec<char>) -> (r: Vec<char>)
    ensures
        r@ == trim_end_dots(cs@),
{
    let mut to: usize = cs.len();
    assert(cs@ =~= cs@.take(to as int));
    while to > 0 && cs[to - 1] == '.'
        invariant
            to <= cs.len(),
            trim_end_dots(cs@) == trim_end_dots(cs@.take(to as int)),
        decreases to,
    {
        proof {
            assert(cs@.take(to as int).drop_last() =~= cs@.take(to - 1));
        }
        to = to - 1;
    }
    assert(cs@.subrange(0, to as int) =~= cs@.take(to as int));
    chars_range(cs, 0, to)
}

/// The position of the first `c` in `s`, or the length of `s`.
pub open spec fn find(s: Seq<char>, c: char) -> nat
    decreases s.len(),
{
    if s.len() == 0 {
        0
    } else if s[0] == c {
        0
    } else {
        1 + find(s.skip(1), c)
    }
}

/// `find` names the first occurrence, or the length where there is none.
pub proof fn lemma_find(s: Seq<char>, c: char)
    ensures
        find(s, c) <= s.len(),
        forall|i: int| 0 <= i < find(s, c) ==> s[i] != c,
        find(s, c) < s.len() ==> s[find(s, c) as int] == c,
    decreases s.len(),
{
    if s.len() > 0 && s[0] != c {
        lemma_find(s.skip(1), c);
        assert forall|i: int| 0 <= i < find(s, c) implies s[i] != c by {
            if i > 0 {
                assert(s[i] == s.skip(1)[i - 1]);
            }
        }
    }
}

/// A position with the defining property of `find` is that position.
pub proof fn lemma_find_is(s: Seq<char>, c: char, at: int)
    requires
        0 <= at <= s.len(),
        forall|i: int| 0 <= i < at ==> s[i] != c,
        at < s.len() ==> s[at] == c,
    ensures
        find(s, c) == at,
    decreases s.len(),
{
    if s.len() > 0 && s[0] != c {
        let rest = s.skip(1);
        assert forall|i: int| 0 <= i < at - 1 implies rest[i] != c by {
            assert(rest[i] == s[i + 1]);
        }
        lemma_find_is(rest, c, at - 1);
    }
}

pub fn find_char(cs: &Vec<char>, c: char) -> (r: usize)
    ensures
        r == find(cs@, c),
        r <= cs.len(),
{
    let mut i: usize = 0;
    while i < cs.len() && cs[i] != c
        invariant
            i <= cs.len(),
            forall|j: int| 0 <= j < i ==> cs@[j] != c,
        decreases cs.len() - i,
    {
        i = i + 1;
    }
    proof {
        lemma_find_is(cs@, c, i as int);
    }
    i
}

/// The pieces of `s` between the separators.
pub open spec fn split(s: Seq<char>, sep: char) -> Seq<Seq<char>>
    decreases s.len(),
{
    let at = find(s, sep);
    if at < s.len() {
        seq![s.take(at as int)] + split(s.skip(at as int + 1), sep)
    } else {
        seq![s]
    }
}

/// The views of a list of character vectors.
pub open spec fn views(v: Seq<Vec<char>>) -> Seq<Seq<char>> {
    Seq::new(v.len(), |i: int| v[i]@)
}

/// The views of a list of strings.
pub open spec fn texts(v: Seq<String>) -> Seq<Seq<char>> {
    Seq::new(v.len(), |i: int| v[i]@)
}

pub fn split_chars(cs: &Vec<char>, sep: char) -> (r: Vec<Vec<char>>)
    ensures
        views(r@) == split(cs@, sep),
        r.len() >= 1,
{
    let mut out: Vec<Vec<char>> = Vec::new();
    let mut start: usize = 0;
    let mut i: usize = 0;
    assert(cs@.skip(0) =~= cs@);
    assert(views(out@) + split(cs@, sep) =~= split(cs@, sep));
    while i < cs.len()
        invariant
            start <= i <= cs.len(),
            forall|j: int| start <= j < i ==> cs@[j] != sep,
            views(out@) + split(cs@.skip(start as int), sep) == split(cs@, sep),
        decreases cs.len() - i,
    {
        if cs[i] == sep {
            let ghost rest = cs@.skip(start as int);
            let ghost before = views(out@);
            let piece = chars_range(cs, start, i);
            proof {
                assert forall|j: int| 0 <= j < i - start implies rest[j] != sep by {
                    assert(rest[j] == cs@[start + j]);
                }
                lemma_find_is(rest, sep, i - start);
                assert(rest.take(i - start) =~= piece@);
                assert(rest.skip(i - start + 1) =~= cs@.skip(i + 1));
            }
            out.push(piece);
            proof {
                assert(views(out@) =~= before.push(piece@));
                assert(before + (seq![piece@] + split(cs@.skip(i + 1), sep)) =~= before.push(piece@)
                    + split(cs@.skip(i + 1), sep));
            }
            start = i + 1;
        }
        i = i + 1;
    }
    let ghost rest = cs@.skip(start as int);
    let ghost before = views(out@);
    let piece = chars_range(cs, start, i);
    proof {
        assert forall|j: int| 0 <= j < rest.len() implies rest[j] != sep by {
            assert(rest[j] == cs@[start + j]);
        }
        lemma_find_is(rest, sep, rest.len() as int);
        assert(rest =~= piece@);
    }
    out.push(piece);
    proof {
        assert(views(out@) =~= before + seq![piece@]);
    }
    out
}

/// Whether `needle` occurs in `s`.
pub open spec fn contains_text(s: Seq<char>, needle: Seq<char>) -> bool {
    exists|at: int| occurs_at(s, needle, at)
}

pub open spec fn occurs_at(s: Seq<char>, needle: Seq<char>, at: int) -> bool {
    0 <= at <= s.len() - needle.len() && s.subrange(at, at + needle.len()) == needle
}

pub fn has_at(cs: &Vec<char>, needle: &Vec<char>, at: usize) -> (r: bool)
    requires
        at <= cs.len(),
    ensures
        r == occurs_at(cs@, needle@, at as int),
{
    if cs.len() - at < needle.len() {
        return false;
    }
    let mut i: usize = 0;
    while i < needle.len()
        invariant
            i <= needle.len(),
            at <= cs.len(),
            needle.len() <= cs.len() - at,
            forall|j: int| 0 <= j < i ==> cs@[at + j] == needle@[j],
        decreases needle.len() - i,
    {
        if cs[at + i] != needle[i] {
            proof {
                assert(cs@.subrange(at as int, at + needle@.len())[i as int] != needle@[i as int]);
            }
            return false;
        }
        i = i + 1;
    }
    assert(cs@.subrange(at as int, at + needle@.len()) =~= needle@);
    true
}

pub fn has_text(s: &str, needle: &str) -> (r: bool)
    ensures
        r == contains_text(s@, needle@),
{
    let cs = chars_of(s);
    let ns = chars_of(needle);
    let mut i: usize = 0;
    while i < cs.len()
        invariant
            i <= cs.len(),
            cs@ == s@,
            ns@ == needle@,
            forall|j: int| 0 <= j < i ==> !occurs_at(s@, needle@, j),
        decreases cs.len() - i,
    {
        if has_at(&cs, &ns, i) {
            return true;
        }
        i = i + 1;
    }
    has_at(&cs, &ns, i)
}

pub open spec fn digit_char(d: int) -> char {
    (48 + d) as char
}

/// A number in decimal, without leading zeros.
pub open spec fn decimal(n: nat) -> Seq<char>
    decreases n,
{
    if n < 10 {
        seq![digit_char(n as int)]
    } else {
        decimal(n / 10).push(digit_char((n % 10) as int))
    }
}

pub fn push_decimal(out: &mut String, n: u64)
    ensures
        final(out)@ == old(out)@ + decimal(n as nat),
    decreases n,
{
    if n >= 10 {
        push_decimal(out, n / 10);
    }
    let d: u8 = 48 + (n % 10) as u8;
    out.push(d as char);
}

pub fn decimal_text(n: u64) -> (r: String)
    ensures
        r@ == decimal(n as nat),
{
    let mut out = String::new();
    push_decimal(&mut out, n);
    out
}

/// The copy of an optional string.
pub fn copy_option(s: &Option<String>) -> (r: Option<String>)
    ensures
        r == *s,
{
    match s {
        Some(text) => Some(text.clone()),
        None => None,
    }
}

/// An ASCII letter in upper case; any other character as it is.
pub open spec fn upper_char(c: char) -> char {
    if 'a' <= c <= 'z' {
        ((c as u32) - 32) as char
    } else {
        c
    }
}

pub fn char_to_upper(c: char) -> (r: char)
    ensures
        r == upper_char(c),
{
    if 'a' <= c && c <= 'z' {
        let low: u8 = c as u8;
        (low - 32) as char
    } else {
        c
    }
}

pub open spec fn upper(s: Seq<char>) -> Seq<char> {
    s.map_values(|c: char| upper_char(c))
}

pub fn to_upper(s: &str) -> (r: String)
    ensures
        r@ == upper(s@),
{
    let cs = chars_of(s);
    let mut out = String::new();
    let mut i: usize = 0;
    while i < cs.len()
        invariant
            i <= cs.len(),
            cs@ == s@,
            out@ == upper(s@.take(i as int)),
        decreases cs.len() - i,
    {
        out.push(char_to_upper(cs[i]));
        assert(upper(s@.take(i + 1)) =~= upper(s@.take(i as int)).push(upper_char(s@[i as int])));
        i = i + 1;
    }
    assert(s@.take(i as int) =~= s@);
    out
}

/// Whether a line end stands at `i`.
pub open spec fn crlf_at(s: Seq<char>, i: int) -> bool {
    0 <= i && i + 1 < s.len() && s[i] == '\r' && s[i + 1] == '\n'
}

/// Where the first line ends: the place of the line end, or the length.
pub open spec fn line_end(s: Seq<char>) -> nat
    decreases s.len(),
{
    if s.len() == 0 {
        0
    } else if crlf_at(s, 0) {
        0
    } else {
        1 + line_end(s.skip(1))
    }
}

pub proof fn lemma_line_end(s: Seq<char>)
    ensures
        line_end(s) <= s.len(),
        line_end(s) < s.len() ==> line_end(s) + 1 < s.len(),
    decreases s.len(),
{
    if s.len() > 0 && !crlf_at(s, 0) {
        lemma_line_end(s.skip(1));
    }
}

/// The lines of a text whose lines are parted by a carriage return and a line
/// feed.
pub open spec fn lines(s: Seq<char>) -> Seq<Seq<char>>
    decreases s.len(),
{
    proof {
        lemma_line_end(s);
    }
    if line_end(s) < s.len() {
        seq![s.take(line_end(s) as int)] + lines(s.skip(line_end(s) as int + 2))
    } else {
        seq![s]
    }
}

proof fn lemma_line_end_step(s: Seq<char>, from: int, i: int)
    requires
        0 <= from <= i < s.len(),
        line_end(s.skip(from)) == (i - from) + line_end(s.skip(i)),
        !crlf_at(s, i),
    ensures
        line_end(s.skip(from)) == (i + 1 - from) + line_end(s.skip(i + 1)),
{
    assert(s.skip(i).skip(1) =~= s.skip(i + 1));
    assert(!crlf_at(s.skip(i), 0));
}

pub fn split_lines(cs: &Vec<char>) -> (r: Vec<Vec<char>>)
    ensures
        views(r@) == lines(cs@),
        r@.len() > 0,
{
    let mut out: Vec<Vec<char>> = Vec::new();
    let mut from: usize = 0;
    let mut i: usize = 0;
    assert(cs@.skip(0) =~= cs@);
    assert(views(out@) + lines(cs@.skip(0)) =~= lines(cs@));
    while i < cs.len()
        invariant
            from <= i <= cs.len(),
            views(out@) + lines(cs@.skip(from as int)) == lines(cs@),
            line_end(cs@.skip(from as int)) == (i - from) + line_end(cs@.skip(i as int)),
        decreases cs.len() - i,
    {
        if cs[i] == '\r' && i + 1 < cs.len() && cs[i + 1] == '\n' {
            let ghost before = views(out@);
            let ghost rest = cs@.skip(from as int);
            assert(crlf_at(cs@.skip(i as int), 0));
            assert(line_end(rest) == i - from);
            let line = chars_range(cs, from, i);
            assert(line@ =~= rest.take(i - from));
            out.push(line);
            assert(views(out@) =~= before.push(line@));
            assert(rest.skip((i - from) + 2) =~= cs@.skip(i + 2));
            assert(lines(rest) == seq![line@] + lines(cs@.skip(i + 2)));
            assert(views(out@) + lines(cs@.skip(i + 2)) =~= before + lines(rest));
            i = i + 2;
            from = i;
        } else {
            proof {
                lemma_line_end_step(cs@, from as int, i as int);
            }
            i = i + 1;
        }
    }
    let ghost before = views(out@);
    let ghost rest = cs@.skip(from as int);
    assert(line_end(cs@.skip(i as int)) == 0);
    assert(line_end(rest) == rest.len());
    let line = chars_range(cs, from, i);
    assert(line@ =~= rest);
    out.push(line);
    assert(views(out@) =~= before + lines(rest));
    out
}

/// What a digit stands for in a radix of up to sixteen.
pub open spec fn digit_value(c: char, radix: nat) -> Option<nat> {
    let value = if '0' <= c <= '9' {
        c as nat - '0' as nat
    } else if 'a' <= c <= 'f' {
        10 + (c as nat - 'a' as nat)
    } else if 'A' <= c <= 'F' {
        10 + (c as nat - 'A' as nat)
    } else {
        16
    };
    if 0 <= value < radix {
        Some(value as nat)
    } else {
        None
    }
}

fn digit_of(c: char, radix: u64) -> (r: Option<u64>)
    requires
        radix <= 16,
    ensures
        match r {
            Some(d) => digit_value(c, radix as nat) == Some(d as nat),
            None => digit_value(c, radix as nat) is None,
        },
{
    let value: u64 = if '0' <= c && c <= '9' {
        let d: u32 = (c as u32) - ('0' as u32);
        d as u64
    } else if 'a' <= c && c <= 'f' {
        let d: u32 = (c as u32) - ('a' as u32);
        10 + d as u64
    } else if 'A' <= c && c <= 'F' {
        let d: u32 = (c as u32) - ('A' as u32);
        10 + d as u64
    } else {
        16
    };
    if value < radix {
        Some(value)
    } else {
        None
    }
}

/// The number that a row of digits stands for.
pub open spec fn number(s: Seq<char>, radix: nat) -> Option<nat>
    decreases s.len(),
{
    if s.len() == 0 {
        Some(0)
    } else {
        match (number(s.drop_last(), radix), digit_value(s.last(), radix)) {
            (Some(n), Some(d)) => Some(n * radix + d),
            _ => None,
        }
    }
}

/// The number that a text stands for: digits, with a plus sign in front or
/// without, and no more than `max`.
pub open spec fn parsed_number(s: Seq<char>, radix: nat, max: nat) -> Option<nat> {
    let digits = if s.len() > 0 && s[0] == '+' {
        s.skip(1)
    } else {
        s
    };
    if digits.len() == 0 {
        None
    } else {
        match number(digits, radix) {
            Some(n) => if n <= max {
                Some(n)
            } else {
                None
            },
            None => None,
        }
    }
}

proof fn lemma_number_grows(s: Seq<char>, radix: nat, i: int)
    requires
        0 <= i <= s.len(),
        radix >= 1,
    ensures
        number(s.take(i), radix) is None ==> number(s, radix) is None,
        number(s, radix) is Some ==> number(s, radix)->0 >= number(s.take(i), radix)->0,
    decreases s.len() - i,
{
    if i < s.len() {
        lemma_number_grows(s, radix, i + 1);
        assert(s.take(i + 1).drop_last() =~= s.take(i));
        if number(s.take(i + 1), radix) is Some {
            let n = number(s.take(i), radix)->0;
            assert(n * radix >= n) by (nonlinear_arith)
                requires
                    radix >= 1,
            ;
        }
    } else {
        assert(s.take(i) =~= s);
    }
}

pub fn parse_number(cs: &Vec<char>, radix: u64, max: u64) -> (r: Option<u64>)
    requires
        radix == 10 || radix == 16,
    ensures
        match r {
            Some(n) => parsed_number(cs@, radix as nat, max as nat) == Some(n as nat),
            None => parsed_number(cs@, radix as nat, max as nat) is None,
        },
{
    let from: usize = if cs.len() > 0 && cs[0] == '+' {
        1
    } else {
        0
    };
    let ghost digits = cs@.skip(from as int);
    assert(cs@.skip(0) =~= cs@);
    if from >= cs.len() {
        return None;
    }
    let mut n: u64 = 0;
    let mut i: usize = from;
    assert(digits.take(0) =~= Seq::<char>::empty());
    while i < cs.len()
        invariant
            from <= i <= cs.len(),
            from < cs.len(),
            radix == 10 || radix == 16,
            n <= max,
            digits == cs@.skip(from as int),
            parsed_number(cs@, radix as nat, max as nat) == (match number(digits, radix as nat) {
                Some(n) => if n <= max {
                    Some(n)
                } else {
                    None
                },
                None => None,
            }),
            number(digits.take(i - from), radix as nat) == Some(n as nat),
        decreases cs.len() - i,
    {
        proof {
            lemma_number_grows(digits, radix as nat, i - from + 1);
            assert(digits.take(i - from + 1).drop_last() =~= digits.take(i - from));
            assert(digits.take(i - from + 1).last() == cs@[i as int]);
        }
        let d: u64 = match digit_of(cs[i], radix) {
            Some(d) => d,
            None => {
                return None;
            },
        };
        let next: u128 = (n as u128) * (radix as u128) + (d as u128);
        assert(next == n * radix + d);
        if next > max as u128 {
            return None;
        }
        n = next as u64;
        i = i + 1;
    }
    assert(digits.take(i - from) =~= digits);
    Some(n)
}

pub open spec fn hex_digit(d: int) -> char {
    if d < 10 {
        (48 + d) as char
    } else {
        (87 + d) as char
    }
}

/// Bytes in lower-case hexadecimal.
pub open spec fn hex(bytes: Seq<u8>) -> Seq<char>
    decreases bytes.len(),
{
    if bytes.len() == 0 {
        Seq::empty()
    } else {
        hex(bytes.drop_last()).push(hex_digit(bytes.last() as int / 16)).push(
            hex_digit(bytes.last() as int % 16),
        )
    }
}

pub fn hex_char(d: u8) -> (r: char)
    requires
        d < 16,
    ensures
        r == hex_digit(d as int),
{
    if d < 10 {
        (48 + d) as char
    } else {
        (87 + d) as char
    }
}

/// The last `digits` hexadecimal digits of a number.
pub open spec fn hex_number(n: nat, digits: nat) -> Seq<char>
    decreases digits,
{
    if digits == 0 {
        Seq::empty()
    } else {
        hex_number(n / 16, (digits - 1) as nat).push(hex_digit((n % 16) as int))
    }
}

pub fn push_hex_number(out: &mut String, n: u64, digits: u8)
    ensures
        final(out)@ == old(out)@ + hex_number(n as nat, digits as nat),
    decreases digits,
{
    let ghost start = out@;
    if digits == 0 {
        assert(start + hex_number(n as nat, 0) =~= start);
        return ;
    }
    push_hex_number(out, n / 16, digits - 1);
    let last: u8 = (n % 16) as u8;
    out.push(hex_char(last));
    assert(out@ =~= start + hex_number(n as nat, digits as nat));
}

pub fn hex_text(bytes: &Vec<u8>) -> (r: String)
    ensures
        r@ == hex(bytes@),
{
    let mut out = String::new();
    let mut i: usize = 0;
    while i < bytes.len()
        invariant
            i <= bytes.len(),
            out@ == hex(bytes@.take(i as int)),
        decreases bytes.len() - i,
    {
        assert(bytes@.take(i + 1).drop_last() =~= bytes@.take(i as int));
        out.push(hex_char(bytes[i] / 16));
        out.push(hex_char(bytes[i] % 16));
        i = i + 1;
    }
    assert(bytes@.take(i as int) =~= bytes@);
    out
}

/// The last place of a character; the length if there is none.
pub open spec fn find_last(s: Seq<char>, c: char) -> nat
    decreases s.len(),
{
    if s.len() == 0 {
        0
    } else if s.last() == c {
        (s.len() - 1) as nat
    } else {
        let at = find_last(s.drop_last(), c);
        if at < s.len() - 1 {
            at
        } else {
            s.len()
        }
    }
}

pub fn find_last_char(cs: &Vec<char>, c: char) -> (r: usize)
    ensures
        r == find_last(cs@, c),
        r <= cs@.len(),
{
    let mut i: usize = cs.len();
    assert(cs@.take(i as int) =~= cs@);
    while i > 0
        invariant
            i <= cs@.len(),
            find_last(cs@, c) == (if find_last(cs@.take(i as int), c) < i {
                find_last(cs@.take(i as int), c)
            } else {
                cs@.len()
            }),
        decreases i,
    {
        assert(cs@.take(i as int).drop_last() =~= cs@.take(i - 1));
        if cs[i - 1] == c {
            return i - 1;
        }
        i = i - 1;
    }
    cs.len()
}

/// Trimming takes white space from the two ends and nothing else: what is cut off
/// is white space, and what stays neither begins nor ends with it.
pub proof fn law_trim_cuts_white_space(s: Seq<char>) -> (cut: (nat, nat))
    ensures
        cut.0 <= cut.1 <= s.len(),
        trim(s) == s.subrange(cut.0 as int, cut.1 as int),
        forall|i: int| 0 <= i < cut.0 || cut.1 <= i < s.len() ==> is_space(#[trigger] s[i]),
        trim(s).len() > 0 ==> !is_space(trim(s)[0]) && !is_space(trim(s).last()),
{
    let from = lemma_trim_start(s);
    let to = lemma_trim_end(trim_start(s));
    assert(trim(s) =~= s.subrange(from as int, (from + to) as int));
    assert forall|i: int| 0 <= i < from || from + to <= i < s.len() implies is_space(
        #[trigger] s[i],
    ) by {
        if from <= i {
            assert(s[i] == trim_start(s)[i - from]);
        }
    }
    if trim(s).len() > 0 {
        assert(trim(s)[0] == trim_start(s)[0]);
    }
    (from, from + to)
}

proof fn lemma_trim_start(s: Seq<char>) -> (from: nat)
    ensures
        from <= s.len(),
        trim_start(s) == s.skip(from as int),
        forall|i: int| 0 <= i < from ==> is_space(#[trigger] s[i]),
        from < s.len() ==> !is_space(s[from as int]),
    decreases s.len(),
{
    if s.len() > 0 && is_space(s[0]) {
        let rest = s.skip(1);
        let from = lemma_trim_start(rest);
        assert(rest.skip(from as int) =~= s.skip(from as int + 1));
        assert forall|i: int| 0 <= i < from + 1 implies is_space(#[trigger] s[i]) by {
            if i > 0 {
                assert(s[i] == rest[i - 1]);
            }
        }
        from + 1
    } else {
        assert(s.skip(0) =~= s);
        0
    }
}

proof fn lemma_trim_end(s: Seq<char>) -> (to: nat)
    ensures
        to <= s.len(),
        trim_end(s) == s.take(to as int),
        forall|i: int| to <= i < s.len() ==> is_space(#[trigger] s[i]),
        to > 0 ==> !is_space(s[to - 1]),
    decreases s.len(),
{
    if s.len() > 0 && is_space(s.last()) {
        let rest = s.drop_last();
        let to = lemma_trim_end(rest);
        assert(rest.take(to as int) =~= s.take(to as int));
        assert forall|i: int| to <= i < s.len() implies is_space(#[trigger] s[i]) by {
            if i < rest.len() {
                assert(s[i] == rest[i]);
            }
        }
        to
    } else {
        assert(s.take(s.len() as int) =~= s);
        s.len()
    }
}

/// A text that neither begins nor ends with white space stays as it is, also with
/// a space in front.
pub proof fn law_trimmed_text_stays(s: Seq<char>)
    requires
        s.len() > 0 ==> !is_space(s[0]) && !is_space(s.last()),
    ensures
        trim(s) == s,
        trim(seq![' '] + s) == s,
{
    reveal_with_fuel(trim_start, 2);
    reveal_with_fuel(trim_end, 2);
    assert((seq![' '] + s).skip(1) =~= s);
}

/// What is written in decimal is read back as the same number.
pub proof fn law_decimal_reads_back(n: nat, max: nat)
    requires
        n <= max,
    ensures
        parsed_number(decimal(n), 10, max) == Some(n),
{
    lemma_decimal_number(n);
}

proof fn lemma_decimal_number(n: nat)
    ensures
        number(decimal(n), 10) == Some(n),
        decimal(n).len() > 0,
        forall|i: int| 0 <= i < decimal(n).len() ==> '0' <= #[trigger] decimal(n)[i] <= '9',
    decreases n,
{
    reveal_with_fuel(number, 2);
    if n >= 10 {
        lemma_decimal_number(n / 10);
        assert(decimal(n).drop_last() =~= decimal(n / 10));
        assert(digit_value(digit_char((n % 10) as int), 10) == Some(n % 10));
    } else {
        assert(decimal(n).drop_last() =~= Seq::empty());
        assert(digit_value(digit_char(n as int), 10) == Some(n));
    }
}

/// A text is split at every separator: a piece without one, the separator, and
/// the pieces of the rest.
pub proof fn law_split_undoes_joining(piece: Seq<char>, rest: Seq<char>, sep: char)
    requires
        !piece.contains(sep),
    ensures
        split(piece, sep) == seq![piece],
        split(piece + seq![sep] + rest, sep) == seq![piece] + split(rest, sep),
{
    let whole = piece + seq![sep] + rest;
    assert forall|i: int| 0 <= i < piece.len() implies piece[i] != sep by {
        if piece[i] == sep {
            assert(piece.contains(sep));
        }
    }
    lemma_find_is(piece, sep, piece.len() as int);
    lemma_find_is(whole, sep, piece.len() as int);
    assert(whole.take(piece.len() as int) =~= piece);
    assert(whole.skip(piece.len() as int + 1) =~= rest);
}

proof fn lemma_line_end_is(s: Seq<char>, at: int)
    requires
        0 <= at <= s.len(),
        forall|i: int| 0 <= i < at ==> !#[trigger] crlf_at(s, i),
        at < s.len() ==> crlf_at(s, at),
    ensures
        line_end(s) == at,
    decreases s.len(),
{
    if s.len() > 0 && at > 0 {
        let rest = s.skip(1);
        assert(!crlf_at(s, 0));
        assert forall|i: int| 0 <= i < at - 1 implies !#[trigger] crlf_at(rest, i) by {
            assert(!crlf_at(s, i + 1));
        }
        if at < s.len() {
            assert(crlf_at(rest, at - 1));
        }
        lemma_line_end_is(rest, at - 1);
    }
}

/// A text is read line by line: a line, a carriage return and a line feed, and
/// the lines of the rest.
pub proof fn law_lines_undo_joining(line: Seq<char>, rest: Seq<char>)
    requires
        !line.contains('\r'),
    ensures
        lines(line) == seq![line],
        lines(line + seq!['\r', '\n'] + rest) == seq![line] + lines(rest),
{
    let whole = line + seq!['\r', '\n'] + rest;
    assert forall|i: int| 0 <= i < line.len() implies line[i] != '\r' by {
        if line[i] == '\r' {
            assert(line.contains('\r'));
        }
    }
    assert forall|i: int| 0 <= i < line.len() implies !#[trigger] crlf_at(line, i) by {
        assert(line[i] != '\r');
    }
    assert forall|i: int| 0 <= i < line.len() implies !#[trigger] crlf_at(whole, i) by {
        assert(whole[i] == line[i]);
    }
    lemma_line_end_is(line, line.len() as int);
    lemma_line_end_is(whole, line.len() as int);
    assert(whole.take(line.len() as int) =~= line);
    assert(whole.skip(line.len() as int + 2) =~= rest);
}

/// Lower case changes the letters from A to Z, each to its small letter, and
/// leaves everything else; upper case is its counterpart.
pub proof fn law_case_changes_letters_only(s: Seq<char>, i: int)
    requires
        0 <= i < s.len(),
    ensures
        lower(s).len() == s.len(),
        upper(s).len() == s.len(),
        lower(s)[i] as int == (if 'A' <= s[i] <= 'Z' {
            s[i] as int + 32
        } else {
            s[i] as int
        }),
        upper(s)[i] as int == (if 'a' <= s[i] <= 'z' {
            s[i] as int - 32
        } else {
            s[i] as int
        }),
{
}

/// Two texts are the same but for case exactly where each character is, letters
/// in either case taken for one.
pub proof fn law_same_but_for_case(a: Seq<char>, b: Seq<char>)
    ensures
        same_ignoring_case(a, b) <==> a.len() == b.len() && forall|i: int|
            0 <= i < a.len() ==> lower_char(#[trigger] a[i]) == lower_char(b[i]),
{
    if same_ignoring_case(a, b) {
        assert(lower(a).len() == lower(b).len());
        assert forall|i: int| 0 <= i < a.len() implies lower_char(#[trigger] a[i]) == lower_char(
            b[i],
        ) by {
            assert(lower(a)[i] == lower(b)[i]);
        }
    } else if a.len() == b.len() && forall|i: int|
        0 <= i < a.len() ==> lower_char(#[trigger] a[i]) == lower_char(b[i]) {
        assert forall|i: int| 0 <= i < a.len() implies lower(a)[i] == lower(b)[i] by {
            assert(lower_char(a[i]) == lower_char(b[i]));
        }
        assert(lower(a) =~= lower(b));
    }
}

/// Bytes in hexadecimal are two digits for each byte, which read as its value.
pub proof fn law_hex_reads_back(bytes: Seq<u8>, i: int)
    requires
        0 <= i < bytes.len(),
    ensures
        hex(bytes).len() == 2 * bytes.len(),
        digit_value(hex(bytes)[2 * i], 16) is Some,
        digit_value(hex(bytes)[2 * i + 1], 16) is Some,
        digit_value(hex(bytes)[2 * i], 16)->0 * 16 + digit_value(hex(bytes)[2 * i + 1], 16)->0
            == bytes[i],
    decreases bytes.len(),
{
    lemma_hex_len(bytes);
    lemma_hex_len(bytes.drop_last());
    if i < bytes.len() - 1 {
        law_hex_reads_back(bytes.drop_last(), i);
        assert(hex(bytes)[2 * i] == hex(bytes.drop_last())[2 * i]);
        assert(hex(bytes)[2 * i + 1] == hex(bytes.drop_last())[2 * i + 1]);
    } else {
        let high = bytes[i] as int / 16;
        let low = bytes[i] as int % 16;
        assert(hex(bytes)[2 * i] == hex_digit(high));
        assert(hex(bytes)[2 * i + 1] == hex_digit(low));
        assert(digit_value(hex_digit(high), 16) == Some(high as nat));
        assert(digit_value(hex_digit(low), 16) == Some(low as nat));
    }
}

proof fn lemma_hex_len(bytes: Seq<u8>)
    ensures
        hex(bytes).len() == 2 * bytes.len(),
    decreases bytes.len(),
{
    if bytes.len() > 0 {
        lemma_hex_len(bytes.drop_last());
    }
}

/// A number in decimal is made of digits.
pub proof fn lemma_decimal_digits(n: nat)
    ensures
        decimal(n).len() > 0,
        forall|i: int| 0 <= i < decimal(n).len() ==> '0' <= #[trigger] decimal(n)[i] <= '9',
{
    lemma_decimal_number(n);
}

/// Sixteen hexadecimal digits tell any two numbers apart.
pub proof fn law_hex_numbers_differ(a: u64, b: u64)
    ensures
        hex_number(a as nat, 16).len() == 16,
        hex_number(a as nat, 16) == hex_number(b as nat, 16) ==> a == b,
{
    reveal_with_fuel(hex_width, 17);
    assert(hex_width(a as nat, 16));
    assert(hex_width(b as nat, 16));
    lemma_hex_numbers_differ(a as nat, b as nat, 16);
}

/// Whether a number has at most so many hexadecimal digits.
spec fn hex_width(n: nat, width: nat) -> bool
    decreases width,
{
    if width == 0 {
        n == 0
    } else {
        hex_width(n / 16, (width - 1) as nat)
    }
}

proof fn lemma_hex_numbers_differ(a: nat, b: nat, width: nat)
    requires
        hex_width(a, width),
        hex_width(b, width),
    ensures
        hex_number(a, width).len() == width,
        hex_number(b, width).len() == width,
        hex_number(a, width) == hex_number(b, width) ==> a == b,
    decreases width,
{
    if width > 0 {
        lemma_hex_numbers_differ(a / 16, b / 16, (width - 1) as nat);
        let x = hex_number(a, width);
        let y = hex_number(b, width);
        assert(x.drop_last() =~= hex_number(a / 16, (width - 1) as nat));
        assert(y.drop_last() =~= hex_number(b / 16, (width - 1) as nat));
        assert(x.last() == hex_digit((a % 16) as int));
        assert(y.last() == hex_digit((b % 16) as int));
    }
}

/// A separator splits a text into the pieces before it and the pieces behind it.
pub proof fn law_separator_splits(a: Seq<char>, b: Seq<char>, sep: char)
    ensures
        split(a + seq![sep] + b, sep) == split(a, sep) + split(b, sep),
    decreases a.len(),
{
    let whole = a + seq![sep] + b;
    let at = find(a, sep) as int;
    lemma_find(a, sep);
    assert forall|i: int| 0 <= i < at implies whole[i] != sep by {
        assert(whole[i] == a[i]);
    }
    lemma_find_is(whole, sep, at);
    assert(whole.take(at) =~= a.take(at));
    if at < a.len() {
        let rest = a.skip(at + 1);
        law_separator_splits(rest, b, sep);
        assert(whole.skip(at + 1) =~= rest + seq![sep] + b);
        assert(split(whole, sep) =~= split(a, sep) + split(b, sep));
    } else {
        assert(whole.skip(at + 1) =~= b);
        assert(a.take(at) =~= a);
        assert(split(whole, sep) =~= split(a, sep) + split(b, sep));
    }
}

/// The last place of a character is the one that none comes behind.
pub proof fn lemma_find_last_is(s: Seq<char>, c: char, at: int)
    requires
        0 <= at <= s.len(),
        at < s.len() ==> s[at] == c,
        forall|i: int| at < i < s.len() ==> s[i] != c,
        at == s.len() ==> !s.contains(c),
    ensures
        find_last(s, c) == at,
    decreases s.len(),
{
    if s.len() > 0 && at != s.len() - 1 {
        let rest = s.drop_last();
        if at == s.len() {
            assert forall|i: int| 0 <= i < s.len() implies s[i] != c by {
                if s[i] == c {
                    assert(s.contains(c));
                }
            }
            assert(!rest.contains(c)) by {
                if rest.contains(c) {
                    let k = choose|k: int| 0 <= k < rest.len() && rest[k] == c;
                    assert(s[k] == c);
                }
            }
            lemma_find_last_is(rest, c, rest.len() as int);
        } else {
            lemma_find_last_is(rest, c, at);
        }
    }
}

/// The code points that are white space, and those that are control characters.
pub proof fn law_white_space_and_control_characters(c: char)
    ensures
        is_space(c) <==> ({
            let n = c as int;
            9 <= n <= 13 || n == 32 || n == 133 || n == 160 || n == 5760 || 8192 <= n <= 8202 || n
                == 8232 || n == 8233 || n == 8239 || n == 8287 || n == 12288
        }),
        is_control(c) <==> ({
            let n = c as int;
            n < 32 || 127 <= n <= 159
        }),
{
}

/// The digits and the letters of ASCII.
pub proof fn law_digits_and_letters(c: char)
    ensures
        is_digit(c) <==> 48 <= c as int <= 57,
        is_ascii_alnum(c) <==> is_digit(c) || 65 <= c as int <= 90 || 97 <= c as int <= 122,
{
}

} // verus!
