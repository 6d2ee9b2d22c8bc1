//! Writing JSON.
use crate::text;
use vstd::prelude::*;
use vstd::string::*;

verus! {

/// A character of a JSON string.
pub open spec fn escaped_char(c: char) -> Seq<char> {
    if c == '"' {
        seq!['\\', '"']
    } else if c == '\\' {
        seq!['\\', '\\']
    } else if c == '\n' {
        seq!['\\', 'n']
    } else if c == '\r' {
        seq!['\\', 'r']
    } else if c == '\t' {
        seq!['\\', 't']
    } else if text::is_control(c) {
        seq![
            '\\',
            'u',
            '0',
            '0',
            text::hex_digit(c as int / 16),
            text::hex_digit(c as int % 16),
        ]
    } else {
        seq![c]
    }
}

/// A text as the inside of a JSON string.
pub open spec fn escaped(s: Seq<char>) -> Seq<char>
    decreases s.len(),
{
    if s.len() == 0 {
        Seq::empty()
    } else {
        escaped(s.drop_last()) + escaped_char(s.last())
    }
}

fn push_escaped(out: &mut String, c: char)
    ensures
        final(out)@ == old(out)@ + escaped_char(c),
{
    let ghost before = out@;
    if c == '"' {
        out.push('\\');
        out.push('"');
    } else if c == '\\' {
        out.push('\\');
        out.push('\\');
    } else if c == '\n' {
        out.push('\\');
        out.push('n');
    } else if c == '\r' {
        out.push('\\');
        out.push('r');
    } else if c == '\t' {
        out.push('\\');
        out.push('t');
    } else if text::char_is_control(c) {
        let code: u8 = c as u8;
        out.push('\\');
        out.push('u');
        out.push('0');
        out.push('0');
        out.push(text::hex_char(code / 16));
        out.push(text::hex_char(code % 16));
    } else {
        out.push(c);
    }
    assert(out@ =~= before + escaped_char(c));
}

pub fn json_escape(value: &str) -> (r: String)
    ensures
        r@ == escaped(value@),
{
    let cs = text::chars_of(value);
    let mut out = String::new();
    let mut i: usize = 0;
    while i < cs.len()
        invariant
            i <= cs@.len(),
            cs@ == value@,
            out@ == escaped(value@.take(i as int)),
        decreases cs@.len() - i,
    {
        assert(value@.take(i + 1).drop_last() =~= value@.take(i as int));
        push_escaped(&mut out, cs[i]);
        i = i + 1;
    }
    assert(value@.take(i as int) =~= value@);
    out
}

/// A JSON string.
pub open spec fn quoted(s: Seq<char>) -> Seq<char> {
    "\""@ + escaped(s) + "\""@
}

pub fn json_string(value: &str) -> (r: String)
    ensures
        r@ == quoted(value@),
{
    let inner = json_escape(value);
    let mut out = "\"".to_owned();
    out.append(inner.as_str());
    out.append("\"");
    out
}

/// A JSON string, or null.
pub open spec fn quoted_or_null(s: Option<Seq<char>>) -> Seq<char> {
    match s {
        Some(s) => quoted(s),
        None => "null"@,
    }
}

pub open spec fn bool_text(value: bool) -> Seq<char> {
    if value {
        "true"@
    } else {
        "false"@
    }
}

pub fn json_bool(value: bool) -> (r: &'static str)
    ensures
        r@ == bool_text(value),
{
    if value {
        "true"
    } else {
        "false"
    }
}

pub open spec fn bool_or_null(value: Option<bool>) -> Seq<char> {
    match value {
        Some(value) => bool_text(value),
        None => "null"@,
    }
}

pub fn json_bool_or_null(value: Option<bool>) -> (r: &'static str)
    ensures
        r@ == bool_or_null(value),
{
    match value {
        Some(true) => "true",
        Some(false) => "false",
        None => "null",
    }
}

pub open spec fn number_or_null(value: Option<u32>) -> Seq<char> {
    match value {
        Some(value) => text::decimal(value as nat),
        None => "null"@,
    }
}

pub fn json_number_or_null(value: Option<u32>) -> (r: String)
    ensures
        r@ == number_or_null(value),
{
    match value {
        Some(value) => text::decimal_text(value as u64),
        None => "null".to_owned(),
    }
}

/// The first `n` items with commas between them.
pub open spec fn joined(items: Seq<Seq<char>>, n: nat) -> Seq<char>
    decreases n,
{
    if n == 0 {
        Seq::empty()
    } else if n == 1 {
        items[0]
    } else {
        joined(items, (n - 1) as nat) + ","@ + items[n - 1]
    }
}

pub fn json_join(items: &Vec<String>) -> (r: String)
    ensures
        r@ == joined(text::texts(items@), items@.len()),
{
    let ghost all = text::texts(items@);
    if items.len() == 0 {
        let r = String::new();
        assert(r@ =~= joined(all, 0));
        return r;
    }
    assert(all[0] == items@[0]@);
    let mut out = items[0].clone();
    let mut i: usize = 1;
    while i < items.len()
        invariant
            1 <= i <= items@.len(),
            all == text::texts(items@),
            out@ == joined(all, i as nat),
        decreases items@.len() - i,
    {
        assert(all[i as int] == items@[i as int]@);
        out.append(",");
        out.append(items[i].as_str());
        i = i + 1;
    }
    out
}

proof fn lemma_escaped_char_is_inert(c: char)
    ensures
        forall|k: int|
            0 <= k < escaped_char(c).len() ==> !text::is_control(#[trigger] escaped_char(c)[k]) && (
            escaped_char(c)[k] == '"' ==> k > 0 && escaped_char(c)[k - 1] == '\\'),
{
    let high = c as int / 16;
    let low = c as int % 16;
    if text::is_control(c) {
        assert(0 <= c as int <= 159);
        assert(0 <= high < 10);
        assert(0 <= low < 16);
        assert(!text::is_control(text::hex_digit(low)) && text::hex_digit(low) != '"');
        assert(!text::is_control(text::hex_digit(high)) && text::hex_digit(high) != '"');
    }
}

/// A JSON string never holds a character that would end it or break its line.
pub proof fn law_escaped_text_is_inert(s: Seq<char>)
    ensures
        forall|i: int|
            0 <= i < escaped(s).len() ==> !text::is_control(#[trigger] escaped(s)[i]) && (
            escaped(s)[i] == '"' ==> i > 0 && escaped(s)[i - 1] == '\\'),
    decreases s.len(),
{
    if s.len() > 0 {
        law_escaped_text_is_inert(s.drop_last());
        let before = escaped(s.drop_last());
        let last = escaped_char(s.last());
        let all = escaped(s);
        lemma_escaped_char_is_inert(s.last());
        assert forall|i: int| 0 <= i < all.len() implies !text::is_control(#[trigger] all[i]) && (
        all[i] == '"' ==> i > 0 && all[i - 1] == '\\') by {
            if i < before.len() {
                assert(all[i] == before[i]);
                if i > 0 {
                    assert(all[i - 1] == before[i - 1]);
                }
            } else {
                assert(all[i] == last[i - before.len()]);
                if i > before.len() {
                    assert(all[i - 1] == last[i - before.len() - 1]);
                }
            }
        }
    }
}

/// A text is written character by character: quotes, backslashes and control
/// characters are escaped, and every other character stays as it is.
pub proof fn law_characters_are_escaped_one_by_one(s: Seq<char>, c: char)
    ensures
        escaped(s.push(c)) == escaped(s) + escaped_char(c),
        c != '"' && c != '\\' && !text::is_control(c) ==> escaped_char(c) == seq![c],
        c == '"' || c == '\\' ==> escaped_char(c) == seq!['\\', c],
        text::is_control(c) && c != '\n' && c != '\r' && c != '\t' ==> escaped_char(c).len() == 6
            && escaped_char(c).take(4) == seq!['\\', 'u', '0', '0']
            && 16 * digit_of(escaped_char(c)[4]) + digit_of(escaped_char(c)[5]) == c as int,
        escaped_char('\n') == seq!['\\', 'n'],
        escaped_char('\r') == seq!['\\', 'r'],
        escaped_char('\t') == seq!['\\', 't'],
{
    assert(s.push(c).drop_last() =~= s);
    if text::is_control(c) && c != '\n' && c != '\r' && c != '\t' {
        assert(escaped_char(c).take(4) =~= seq!['\\', 'u', '0', '0']);
    }
}

/// The value of a hexadecimal digit in small letters.
pub open spec fn digit_of(digit: char) -> int {
    if '0' <= digit <= '9' {
        digit as int - '0' as int
    } else {
        digit as int - 'a' as int + 10
    }
}

/// The items of a list can be told apart by the commas between them.
pub proof fn law_joined_items_come_apart(items: Seq<Seq<char>>, n: nat)
    requires
        0 < n <= items.len(),
        forall|i: int| 0 <= i < n ==> !(#[trigger] items[i]).contains(','),
    ensures
        text::split(joined(items, n), ',') == items.take(n as int),
    decreases n,
{
    reveal_strlit(",");
    let last = items[n - 1];
    text::law_split_undoes_joining(last, Seq::empty(), ',');
    if n == 1 {
        assert(items.take(1) =~= seq![last]);
    } else {
        law_joined_items_come_apart(items, (n - 1) as nat);
        let before = joined(items, (n - 1) as nat);
        assert(","@ =~= seq![',']);
        text::law_separator_splits(before, last, ',');
        assert(items.take(n as int) =~= items.take(n - 1) + seq![last]);
    }
}

/// The first `n` pieces one after the other.
pub open spec fn chained(pieces: Seq<Seq<char>>, n: nat) -> Seq<char>
    decreases n,
{
    if n == 0 {
        Seq::empty()
    } else if n == 1 {
        pieces[0]
    } else {
        chained(pieces, (n - 1) as nat) + pieces[n - 1]
    }
}

/// A chain of pieces holds each piece together with the one behind it.
pub proof fn lemma_chain_holds(pieces: Seq<Seq<char>>, n: nat, i: int)
    requires
        0 <= i,
        i + 1 < n <= pieces.len(),
    ensures
        text::contains_text(chained(pieces, n), pieces[i] + pieces[i + 1]),
    decreases n,
{
    let before = chained(pieces, (n - 1) as nat);
    let whole = chained(pieces, n);
    let wanted = pieces[i] + pieces[i + 1];
    if i + 1 == n - 1 {
        let front = before.len() - pieces[i].len();
        assert(before.len() >= pieces[i].len());
        assert(before.skip(front as int) =~= pieces[i]) by {
            if n > 2 {
                let front_part = chained(pieces, (n - 2) as nat);
                assert(before == front_part + pieces[i]);
            }
        }
        assert(whole.subrange(front as int, front + wanted.len()) =~= wanted) by {
            assert(whole =~= before + pieces[i + 1]);
            assert forall|k: int| 0 <= k < wanted.len() implies whole[front + k] == wanted[k] by {
                if k < pieces[i].len() {
                    assert(before.skip(front as int)[k] == pieces[i][k]);
                }
            }
        }
        assert(text::occurs_at(whole, wanted, front as int));
    } else {
        lemma_chain_holds(pieces, (n - 1) as nat, i);
        let at = choose|at: int| text::occurs_at(before, wanted, at);
        assert(whole.subrange(at, at + wanted.len()) =~= before.subrange(at, at + wanted.len()));
        assert(text::occurs_at(whole, wanted, at));
    }
}

} // verus!
