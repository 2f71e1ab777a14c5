//! JSON texts, written member by member.
use vstd::prelude::*;
use vstd::string::*;

use crate::text;

verus! {

/// The hexadecimal digit of a number below 16.
pub open spec fn hex_char(n: int) -> char {
    if n < 10 {
        (48 + n) as char
    } else {
        (87 + n) as char
    }
}

/// A character inside a JSON string: quotes, backslashes and control characters are
/// escaped, and all others stand for themselves.
pub open spec fn json_char(c: char) -> Seq<char> {
    if c == '"' || c == '\\' {
        seq!['\\', c]
    } else if c == '\u{8}' {
        seq!['\\', 'b']
    } else if c == '\t' {
        seq!['\\', 't']
    } else if c == '\n' {
        seq!['\\', 'n']
    } else if c == '\u{c}' {
        seq!['\\', 'f']
    } else if c == '\r' {
        seq!['\\', 'r']
    } else if c <= '\u{1f}' {
        seq!['\\', 'u', '0', '0', hex_char(c as int / 16), hex_char(c as int % 16)]
    } else {
        seq![c]
    }
}

/// The characters of a text inside a JSON string.
pub open spec fn json_chars(s: Seq<char>) -> Seq<char>
    decreases s.len(),
{
    if s.len() == 0 {
        Seq::empty()
    } else {
        json_char(s[0]) + json_chars(s.skip(1))
    }
}

/// The JSON string of a text.
pub open spec fn json_string(s: Seq<char>) -> Seq<char> {
    seq!['"'] + json_chars(s) + seq!['"']
}

/// `serde_json::to_string` on a `str` writes the text as one JSON string: between
/// two quotes, with a backslash before a quote and a backslash, the short escapes
/// of the five control characters that have one, `\u00` and two lower case digits
/// for the other control characters, and every other character as it is.
#[verifier::external_body]
pub(crate) fn json_string_text(s: &str) -> (r: String)
    ensures
        r@ == json_string(s@),
{
    serde_json::to_string(s).expect("a text is written as a JSON string")
}

/// Where the forms of two characters begin one text, they are the same character.
proof fn lemma_json_char(a: char, b: char, x: Seq<char>, y: Seq<char>)
    requires
        json_char(a) + x == json_char(b) + y,
    ensures
        a == b,
        x == y,
{
    let m = json_char(a) + x;
    assert(m[0] == json_char(a)[0] && m[0] == json_char(b)[0]);
    if m[0] == '\\' {
        assert(m[1] == json_char(a)[1] && m[1] == json_char(b)[1]);
        if m[1] == 'u' {
            assert(m[4] == json_char(a)[4] && m[4] == json_char(b)[4]);
            assert(m[5] == json_char(a)[5] && m[5] == json_char(b)[5]);
        }
    }
    assert(a == b);
    let n = json_char(a).len() as int;
    assert(m.skip(n) =~= x);
    assert(m.skip(n) =~= y);
}

/// A quote is not the form of a character.
proof fn lemma_no_quote(c: char, x: Seq<char>, y: Seq<char>)
    ensures
        json_char(c) + x != seq!['"'] + y,
{
    assert((json_char(c) + x)[0] == json_char(c)[0]);
    assert((seq!['"'] + y)[0] == '"');
}

proof fn lemma_json_chars(a: Seq<char>, b: Seq<char>, x: Seq<char>, y: Seq<char>)
    requires
        json_chars(a) + (seq!['"'] + x) == json_chars(b) + (seq!['"'] + y),
    ensures
        a == b,
        x == y,
    decreases a.len(),
{
    let p = seq!['"'] + x;
    let q = seq!['"'] + y;
    if a.len() == 0 && b.len() == 0 {
        assert(json_chars(a) + p =~= p);
        assert(json_chars(b) + q =~= q);
        assert(p.skip(1) =~= x);
        assert(q.skip(1) =~= y);
        assert(a =~= b);
    } else if a.len() == 0 {
        assert(json_chars(a) + p =~= p);
        assert(json_chars(b) + q =~= json_char(b[0]) + (json_chars(b.skip(1)) + q));
        lemma_no_quote(b[0], json_chars(b.skip(1)) + q, x);
    } else if b.len() == 0 {
        assert(json_chars(b) + q =~= q);
        assert(json_chars(a) + p =~= json_char(a[0]) + (json_chars(a.skip(1)) + p));
        lemma_no_quote(a[0], json_chars(a.skip(1)) + p, y);
    } else {
        assert(json_chars(a) + p =~= json_char(a[0]) + (json_chars(a.skip(1)) + p));
        assert(json_chars(b) + q =~= json_char(b[0]) + (json_chars(b.skip(1)) + q));
        lemma_json_char(
            a[0],
            b[0],
            json_chars(a.skip(1)) + p,
            json_chars(b.skip(1)) + q,
        );
        lemma_json_chars(a.skip(1), b.skip(1), x, y);
        assert(a =~= seq![a[0]] + a.skip(1));
        assert(b =~= seq![b[0]] + b.skip(1));
    }
}

/// A JSON string can be read back in one way only: where the JSON strings of two
/// texts begin one text, the two texts are the same, and so is what follows.
pub proof fn law_json_string_is_read_in_one_way(
    a: Seq<char>,
    b: Seq<char>,
    x: Seq<char>,
    y: Seq<char>,
)
    requires
        json_string(a) + x == json_string(b) + y,
    ensures
        a == b,
        x == y,
{
    let m = json_string(a) + x;
    assert(m.skip(1) =~= json_chars(a) + (seq!['"'] + x));
    assert(m.skip(1) =~= json_chars(b) + (seq!['"'] + y));
    lemma_json_chars(a, b, x, y);
}

/// The JSON texts of the members or elements in `items`, with commas between.
pub open spec fn comma_list(items: Seq<Seq<char>>) -> Seq<char>
    decreases items.len(),
{
    if items.len() == 0 {
        Seq::empty()
    } else if items.len() == 1 {
        items[0]
    } else {
        comma_list(items.drop_last()) + seq![','] + items.last()
    }
}

/// Computes [`comma_list`].
pub fn join_commas(items: &Vec<String>) -> (r: String)
    ensures
        r@ == comma_list(text::texts(items@)),
{
    let mut out = String::new();
    let mut i: usize = 0;
    let ghost all = text::texts(items@);
    assert(all.take(0) =~= Seq::empty());
    while i < items.len()
        invariant
            i <= items.len(),
            all == text::texts(items@),
            out@ == comma_list(all.take(i as int)),
        decreases items.len() - i,
    {
        assert(all.take(i + 1).drop_last() =~= all.take(i as int));
        assert(all.take(i + 1).last() == items@[i as int]@);
        if i > 0 {
            out.push(',');
        }
        out.append(items[i].as_str());
        assert(out@ =~= comma_list(all.take(i + 1)));
        i += 1;
    }
    assert(all.take(items.len() as int) =~= all);
    out
}

/// The JSON array of the elements in `items`.
pub open spec fn json_array(items: Seq<Seq<char>>) -> Seq<char> {
    seq!['['] + comma_list(items) + seq![']']
}

/// The JSON object of the members in `items`.
pub open spec fn json_object(items: Seq<Seq<char>>) -> Seq<char> {
    seq!['{'] + comma_list(items) + seq!['}']
}

/// One member of a JSON object: the name, and the JSON text of its value.
pub open spec fn json_member(name: Seq<char>, value: Seq<char>) -> Seq<char> {
    json_string(name) + seq![':'] + value
}

/// Computes [`json_array`].
pub fn array_text(items: &Vec<String>) -> (r: String)
    ensures
        r@ == json_array(text::texts(items@)),
{
    let mut out = String::new();
    out.push('[');
    let inner = join_commas(items);
    out.append(inner.as_str());
    out.push(']');
    assert(out@ =~= json_array(text::texts(items@)));
    out
}

/// Computes [`json_object`].
pub fn object_text(items: &Vec<String>) -> (r: String)
    ensures
        r@ == json_object(text::texts(items@)),
{
    let mut out = String::new();
    out.push('{');
    let inner = join_commas(items);
    out.append(inner.as_str());
    out.push('}');
    assert(out@ =~= json_object(text::texts(items@)));
    out
}

/// Computes [`json_member`].
pub fn member_text(name: &str, value: &str) -> (r: String)
    ensures
        r@ == json_member(name@, value@),
{
    let mut out = json_string_text(name);
    out.push(':');
    out.append(value);
    assert(out@ =~= json_member(name@, value@));
    out
}

/// The JSON text of a truth value.
pub open spec fn json_bool(b: bool) -> Seq<char> {
    if b {
        "true"@
    } else {
        "false"@
    }
}

/// Computes [`json_bool`].
pub fn bool_text(b: bool) -> (r: &'static str)
    ensures
        r@ == json_bool(b),
{
    if b {
        "true"
    } else {
        "false"
    }
}

// ---------------------------------------------------------------------------
// Laws.

/// A list is its items with one comma between two of them: none without items, the
/// item itself for one, and two lists with a comma between them for both together.
pub proof fn law_comma_list(a: Seq<Seq<char>>, b: Seq<Seq<char>>)
    ensures
        comma_list(Seq::empty()).len() == 0,
        a.len() == 1 ==> comma_list(a) == a[0],
        a.len() > 0 && b.len() > 0 ==> comma_list(a + b) == comma_list(a) + seq![','] + comma_list(
            b,
        ),
    decreases b.len(),
{
    if a.len() > 0 && b.len() > 0 {
        let front = b.drop_last();
        assert((a + b).drop_last() =~= a + front);
        assert((a + b).last() == b.last());
        law_comma_list(a, front);
        if front.len() == 0 {
            assert(a + front =~= a);
            assert(comma_list(a + b) =~= comma_list(a) + seq![','] + comma_list(b));
        } else {
            assert(comma_list(a + b) =~= comma_list(a) + seq![','] + comma_list(b));
        }
    }
}

/// `object` is a JSON object, and `name` with the JSON text `value` is one of its
/// members.
pub open spec fn has_member(object: Seq<char>, name: Seq<char>, value: Seq<char>) -> bool {
    exists|a: Seq<char>, b: Seq<char>|
        #![trigger a + (json_string(name) + seq![':'] + value) + b]
        object == seq!['{'] + (a + (json_string(name) + seq![':'] + value) + b) + seq!['}'] && (
        a.len() == 0 || a.last() == ',') && (b.len() == 0 || b[0] == ',')
}

/// An item of a list stands in it with commas around.
proof fn lemma_item_of_list(items: Seq<Seq<char>>, i: int) -> (around: (Seq<char>, Seq<char>))
    requires
        0 <= i < items.len(),
    ensures
        comma_list(items) == around.0 + items[i] + around.1,
        around.0.len() == 0 || around.0.last() == ',',
        around.1.len() == 0 || around.1[0] == ',',
{
    let before = items.take(i);
    let one = seq![items[i]];
    let behind = items.skip(i + 1);
    law_comma_list(one, behind);
    law_comma_list(before, one + behind);
    assert(items =~= before + (one + behind));
    let tail = if behind.len() == 0 {
        Seq::empty()
    } else {
        seq![','] + comma_list(behind)
    };
    let head = if before.len() == 0 {
        Seq::empty()
    } else {
        comma_list(before) + seq![',']
    };
    if behind.len() == 0 {
        assert(one + behind =~= one);
    }
    if before.len() == 0 {
        assert(before + (one + behind) =~= one + behind);
    }
    assert(comma_list(items) =~= head + items[i] + tail);
    (head, tail)
}

/// An object has all its members, each with its name and its value.
pub proof fn law_object_has_its_members(
    items: Seq<Seq<char>>,
    i: int,
    name: Seq<char>,
    value: Seq<char>,
)
    requires
        0 <= i < items.len(),
        items[i] == json_member(name, value),
    ensures
        has_member(json_object(items), name, value),
{
    let (a, b) = lemma_item_of_list(items, i);
    let m = json_string(name) + seq![':'] + value;
    assert(json_object(items) =~= seq!['{'] + (a + m + b) + seq!['}']);
    assert(json_object(items) == seq!['{'] + (a + (json_string(name) + seq![':'] + value) + b)
        + seq!['}']);
}

/// An array is its elements in order, between brackets.
pub proof fn law_array_is_its_elements(items: Seq<Seq<char>>, e: Seq<char>)
    ensures
        items.len() == 0 ==> json_array(items) == seq!['[', ']'],
        items.len() == 1 ==> json_array(items) == seq!['['] + items[0] + seq![']'],
        items.len() > 0 ==> json_array(items.push(e)) == json_array(items).drop_last() + seq![',']
            + e + seq![']'],
{
    law_comma_list(items, seq![e]);
    law_comma_list(seq![e], items);
    assert(items.push(e) =~= items + seq![e]);
    if items.len() == 0 {
        assert(comma_list(items) =~= Seq::empty());
        assert(json_array(items) =~= seq!['[', ']']);
    } else {
        assert(json_array(items).drop_last() =~= seq!['['] + comma_list(items));
        assert(json_array(items.push(e)) =~= json_array(items).drop_last() + seq![','] + e
            + seq![']']);
    }
}

/// Most characters stand for themselves in a JSON string; quotes and backslashes have
/// a backslash before them, and no control character stands in one.
pub proof fn law_json_chars(a: Seq<char>, b: Seq<char>, c: char)
    ensures
        json_chars(a + b) == json_chars(a) + json_chars(b),
        c >= ' ' && c != '"' && c != '\\' ==> json_chars(seq![c]) == seq![c],
        c == '"' || c == '\\' ==> json_chars(seq![c]) == seq!['\\', c],
        c == '\n' ==> json_chars(seq![c]) == seq!['\\', 'n'],
        forall|i: int| 0 <= i < json_chars(a).len() ==> (#[trigger] json_chars(a)[i]) >= ' ',
    decreases a.len(),
{
    let one = seq![c];
    assert(one.skip(1) =~= Seq::empty());
    reveal_with_fuel(json_chars, 2);
    assert(json_chars(one) =~= json_char(c));
    if a.len() == 0 {
        assert(a + b =~= b);
        assert(json_chars(a) + json_chars(b) =~= json_chars(b));
    } else {
        law_json_chars(a.skip(1), b, c);
        assert((a + b).skip(1) =~= a.skip(1) + b);
        assert((a + b)[0] == a[0]);
        assert(json_chars(a + b) =~= json_chars(a) + json_chars(b));
        let h = json_char(a[0]);
        let t = json_chars(a.skip(1));
        assert forall|i: int| 0 <= i < json_chars(a).len() implies (#[trigger] json_chars(a)[i])
            >= ' ' by {
            if i < h.len() {
                lemma_json_char_prints(a[0], i);
                assert(json_chars(a)[i] == h[i]);
            } else {
                assert(json_chars(a)[i] == t[i - h.len()]);
            }
        }
    }
}

proof fn lemma_json_char_prints(c: char, i: int)
    requires
        0 <= i < json_char(c).len(),
    ensures
        json_char(c)[i] >= ' ',
{
    let hi = c as int / 16;
    let lo = c as int % 16;
    assert(0 <= lo < 16);
    if c <= '\u{1f}' {
        assert(0 <= hi < 2);
        assert(hex_char(hi) >= ' ');
        assert(hex_char(lo) >= ' ');
    }
}

} // verus!
