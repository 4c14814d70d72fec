//! The canonical text of a JSON value: no white space, and the members of an
//! object in ascending order of their keys.

use crate::json::{Json, JsonNumber, JsonObject, JsonView, NumberView};
use crate::order::ascending;
use crate::text::{decimal, decimal_int, digit_char, i64_text, texts, u64_text};
use vstd::prelude::*;
use vstd::string::*;

verus! {

// ----------------------------------------------------------- string literals

/// The hexadecimal digit `d` in lower case, for `d` below sixteen.
pub open spec fn hex_char(d: nat) -> char {
    if d < 10 {
        digit_char(d)
    } else {
        ('a' as u32 + d - 10) as char
    }
}

/// How a character is written between the quotes of a JSON string.
pub open spec fn escaped(c: char) -> Seq<char> {
    if c == '"' {
        seq!['\\', '"']
    } else if c == '\\' {
        seq!['\\', '\\']
    } else if c == '\u{8}' {
        seq!['\\', 'b']
    } else if c == '\u{c}' {
        seq!['\\', 'f']
    } else if c == '\n' {
        seq!['\\', 'n']
    } else if c == '\r' {
        seq!['\\', 'r']
    } else if c == '\t' {
        seq!['\\', 't']
    } else if ' ' > c {
        seq!['\\', 'u', '0', '0', hex_char(c as nat / 16), hex_char(c as nat % 16)]
    } else {
        seq![c]
    }
}

/// The characters of `s` as they are written between the quotes.
pub open spec fn escaped_all(s: Seq<char>) -> Seq<char>
    decreases s.len(),
{
    if s.len() == 0 {
        Seq::empty()
    } else {
        escaped(s[0]) + escaped_all(s.drop_first())
    }
}

/// The JSON string literal of `s`.
pub open spec fn json_literal(s: Seq<char>) -> Seq<char> {
    seq!['"'] + escaped_all(s) + seq!['"']
}

/// `serde_json::to_string` of a string: a quote, the characters, of which the
/// quote, the backslash and the control characters below the space are
/// escaped, and a quote. It does not fail on a string.
#[verifier::external_body]
fn json_string(s: &str) -> (out: String)
    ensures
        out@ == json_literal(s@),
{
    serde_json::to_string(s).unwrap()
}

// -------------------------------------------------------------- the canonical text

/// The text of a number.
pub open spec fn number_text(n: NumberView) -> Seq<char> {
    match n {
        NumberView::PosInt(i) => decimal(i as nat),
        NumberView::NegInt(i) => decimal_int(i as int),
        NumberView::Float(t) => t,
    }
}

/// The canonical text of a value.
pub open spec fn canonical(v: JsonView) -> Seq<char>
    decreases v, 0int,
{
    match v {
        JsonView::Null => "null"@,
        JsonView::Bool(b) => if b { "true"@ } else { "false"@ },
        JsonView::Number(n) => number_text(n),
        JsonView::Text(s) => json_literal(s),
        JsonView::Array(items) => seq!['['] + items_from(items, 0) + seq![']'],
        JsonView::Object(m) => seq!['{'] + members_from(m, ascending(m.dom()), 0) + seq!['}'],
    }
}

/// The items from the `i`-th on, each but the first after a comma.
pub open spec fn items_from(items: Seq<JsonView>, i: int) -> Seq<char>
    decreases items, items.len() - i,
{
    if 0 <= i < items.len() {
        comma(i) + canonical(items[i]) + items_from(items, i + 1)
    } else {
        Seq::empty()
    }
}

/// The members that `keys` names from the `i`-th on, each but the first after
/// a comma.
pub open spec fn members_from(m: Map<Seq<char>, JsonView>, keys: Seq<Seq<char>>, i: int) -> Seq<char>
    decreases m, keys.len() - i,
{
    if 0 <= i < keys.len() && m.dom().finite() && m.contains_key(keys[i]) {
        comma(i) + json_literal(keys[i]) + seq![':'] + canonical(m[keys[i]]) + members_from(
            m,
            keys,
            i + 1,
        )
    } else {
        Seq::empty()
    }
}

/// The comma before the `i`-th part of a list.
pub open spec fn comma(i: int) -> Seq<char> {
    if i > 0 {
        seq![',']
    } else {
        Seq::empty()
    }
}

fn push_number(n: &JsonNumber, out: &mut String)
    ensures
        final(out)@ == old(out)@ + number_text(n@),
{
    match n {
        JsonNumber::PosInt(i) => {
            let t: String = u64_text(*i);
            out.append(t.as_str());
        },
        JsonNumber::NegInt(i) => {
            let t: String = i64_text(*i);
            out.append(t.as_str());
        },
        JsonNumber::Float(t) => {
            out.append(t.as_str());
        },
    }
}

/// Appends the canonical text of `v` to `out`.
pub fn canonical_json(v: &Json, out: &mut String)
    ensures
        final(out)@ == old(out)@ + canonical(v@),
    decreases v,
{
    match v {
        Json::Null => {
            out.append("null");
        },
        Json::Bool(b) => {
            if *b {
                out.append("true");
            } else {
                out.append("false");
            }
        },
        Json::Number(n) => {
            push_number(n, out);
        },
        Json::Text(s) => {
            let t: String = json_string(s.as_str());
            out.append(t.as_str());
        },
        Json::Array(items) => {
            let ghost before = out@;
            out.push('[');
            canonical_items(items, out);
            out.push(']');
            assert(out@ =~= before + canonical(v@));
        },
        Json::Object(members) => {
            let ghost before = out@;
            out.push('{');
            canonical_members(members, out);
            out.push('}');
            assert(out@ =~= before + canonical(v@));
        },
    }
}

fn canonical_items(items: &Vec<Json>, out: &mut String)
    ensures
        final(out)@ == old(out)@ + items_from(Json::Array(*items)@->Array_0, 0),
    decreases items,
{
    let ghost views = Json::Array(*items)@->Array_0;
    let ghost whole = out@ + items_from(views, 0);
    for i in 0..items.len()
        invariant
            views == Json::Array(*items)@->Array_0,
            out@ + items_from(views, i as int) == whole,
    {
        let ghost before = out@;
        if i > 0 {
            out.push(',');
        }
        canonical_json(&items[i], out);
        assert(out@ =~= before + comma(i as int) + canonical(views[i as int]));
        assert(out@ + items_from(views, i as int + 1) =~= before + items_from(views, i as int));
    }
    assert(out@ + items_from(views, items@.len() as int) =~= out@);
}

fn canonical_members(members: &JsonObject, out: &mut String)
    ensures
        final(out)@ == old(out)@ + members_from(members@, ascending(members@.dom()), 0),
    decreases members,
{
    let names = members.keys();
    let keys: &Vec<String> = names.to_vec();
    let ghost m = members@;
    let ghost order = ascending(m.dom());
    let ghost whole = out@ + members_from(m, order, 0);
    proof {
        members.lemma_finite();
    }
    for i in 0..keys.len()
        invariant
            m == members@,
            m.dom().finite(),
            texts(keys@) == order,
            order.to_set() == m.dom(),
            out@ + members_from(m, order, i as int) == whole,
    {
        let ghost before = out@;
        proof {
            assert(order[i as int] == keys@[i as int]@);
            assert(order.to_set().contains(order[i as int]));
        }
        if i > 0 {
            out.push(',');
        }
        let name: String = json_string(keys[i].as_str());
        out.append(name.as_str());
        out.push(':');
        match members.get(keys[i].as_str()) {
            Some(value) => {
                canonical_json(value, out);
            },
            None => {},
        }
        assert(out@ =~= before + comma(i as int) + json_literal(order[i as int]) + seq![':']
            + canonical(m[order[i as int]]));
        assert(out@ + members_from(m, order, i as int + 1) =~= before + members_from(
            m,
            order,
            i as int,
        ));
    }
    assert(out@ + members_from(m, order, keys@.len() as int) =~= out@);
}

} // verus!
