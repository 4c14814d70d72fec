//! The canonical text of a JSON value determines the value.

use crate::canonical::{
    canonical, comma, escaped, escaped_all, hex_char, items_from, json_literal, members_from,
    number_text,
};
use crate::json::{JsonView, NumberView};
use crate::order::{ascending, lemma_ascending_exists};
use crate::text::{
    decimal, decimal_int, digit_char, joined, law_parts_are_joined_by_separators,
};
use vstd::prelude::*;

verus! {

// ---------------------------------------------------------------------- validity

/// A decimal digit.
pub open spec fn is_digit(c: char) -> bool {
    '0' <= c <= '9'
}

/// A character that marks a number as floating point.
pub open spec fn is_float_mark(c: char) -> bool {
    c == '.' || c == 'e' || c == 'E'
}

/// A character of a number.
pub open spec fn is_number_char(c: char) -> bool {
    is_digit(c) || is_float_mark(c) || c == '-' || c == '+'
}

/// The text of a floating-point number: it starts with a digit or `-`, holds
/// characters of numbers only, and among them a `.`, an `e` or an `E`.
pub open spec fn valid_float(t: Seq<char>) -> bool {
    &&& t.len() > 0
    &&& is_digit(t[0]) || t[0] == '-'
    &&& forall|i: int| 0 <= i < t.len() ==> is_number_char(#[trigger] t[i])
    &&& exists|i: int| 0 <= i < t.len() && is_float_mark(#[trigger] t[i])
}

/// The number is of the kind that it is marked as.
pub open spec fn valid_number(n: NumberView) -> bool {
    match n {
        NumberView::PosInt(i) => true,
        NumberView::NegInt(i) => i < 0,
        NumberView::Float(t) => valid_float(t),
    }
}

/// Every number in the value is of the kind that it is marked as, and every
/// object has finitely many members.
pub open spec fn valid_json(v: JsonView) -> bool
    decreases v,
{
    match v {
        JsonView::Number(n) => valid_number(n),
        JsonView::Array(items) => forall|i: int|
            0 <= i < items.len() ==> valid_json(#[trigger] items[i]),
        JsonView::Object(m) => {
            &&& m.dom().finite()
            &&& forall|k: Seq<char>| #[trigger] m.contains_key(k) ==> valid_json(m[k])
        },
        _ => true,
    }
}

// -------------------------------------------------------------------------- text

/// Equal texts with equal heads have equal tails.
proof fn lemma_strip(head: Seq<char>, a: Seq<char>, b: Seq<char>)
    requires
        head + a == head + b,
    ensures
        a == b,
{
    let n = head.len() as int;
    assert((head + a).skip(n) =~= a);
    assert((head + b).skip(n) =~= b);
}

// ----------------------------------------------------------------------- numbers

proof fn lemma_digit_char(d: nat)
    requires
        d < 10,
    ensures
        is_digit(digit_char(d)),
        digit_char(d) as u32 == '0' as u32 + d,
{
}

/// The decimal text of a number holds digits only, at least one.
pub proof fn lemma_decimal_digits(n: nat)
    ensures
        decimal(n).len() > 0,
        forall|i: int| 0 <= i < decimal(n).len() ==> is_digit(#[trigger] decimal(n)[i]),
    decreases n,
{
    if n >= 10 {
        lemma_decimal_digits(n / 10);
        lemma_digit_char(n % 10);
    } else {
        lemma_digit_char(n);
    }
}

/// Different numbers have different decimal texts.
pub proof fn lemma_decimal_injective(a: nat, b: nat)
    requires
        decimal(a) == decimal(b),
    ensures
        a == b,
    decreases a,
{
    lemma_digit_char(a % 10);
    lemma_digit_char(b % 10);
    let x = decimal(a);
    let y = decimal(b);
    if a < 10 && b < 10 {
        assert(x[0] == y[0]);
        lemma_digit_char(a);
        lemma_digit_char(b);
    } else if a >= 10 && b >= 10 {
        assert(x.last() == y.last());
        assert(x.drop_last() =~= decimal(a / 10));
        assert(y.drop_last() =~= decimal(b / 10));
        lemma_decimal_injective(a / 10, b / 10);
    } else {
        lemma_decimal_digits(a / 10);
        lemma_decimal_digits(b / 10);
        assert(x.len() == y.len());
    }
}

proof fn lemma_number_text_chars(n: NumberView)
    requires
        valid_number(n),
    ensures
        number_text(n).len() > 0,
        is_digit(number_text(n)[0]) || number_text(n)[0] == '-',
        forall|i: int| 0 <= i < number_text(n).len() ==> is_number_char(#[trigger] number_text(n)[i]),
{
    match n {
        NumberView::PosInt(i) => {
            lemma_decimal_digits(i as nat);
        },
        NumberView::NegInt(i) => {
            lemma_decimal_digits((-i) as nat);
            assert(number_text(n) == seq!['-'] + decimal((-i) as nat));
        },
        NumberView::Float(t) => {},
    }
}

proof fn lemma_integer_text_unmarked(n: NumberView, t: Seq<char>)
    requires
        valid_number(n),
        !(n is Float),
        valid_float(t),
    ensures
        number_text(n) != t,
{
    let i = choose|i: int| 0 <= i < t.len() && is_float_mark(#[trigger] t[i]);
    match n {
        NumberView::PosInt(k) => {
            lemma_decimal_digits(k as nat);
            if number_text(n) == t {
                assert(is_digit(decimal(k as nat)[i]));
            }
        },
        NumberView::NegInt(k) => {
            let d = decimal((-k) as nat);
            lemma_decimal_digits((-k) as nat);
            if number_text(n) == t {
                assert(t == seq!['-'] + d);
                if i > 0 {
                    assert(t[i] == d[i - 1]);
                }
            }
        },
        NumberView::Float(_) => {},
    }
}

/// Different numbers have different texts.
proof fn lemma_number_text_injective(a: NumberView, b: NumberView)
    requires
        valid_number(a),
        valid_number(b),
        number_text(a) == number_text(b),
    ensures
        a == b,
{
    match (a, b) {
        (NumberView::PosInt(x), NumberView::PosInt(y)) => {
            lemma_decimal_injective(x as nat, y as nat);
        },
        (NumberView::NegInt(x), NumberView::NegInt(y)) => {
            lemma_strip(seq!['-'], decimal((-x) as nat), decimal((-y) as nat));
            lemma_decimal_injective((-x) as nat, (-y) as nat);
        },
        (NumberView::PosInt(x), NumberView::NegInt(y)) => {
            lemma_decimal_digits(x as nat);
            assert(number_text(b)[0] == '-');
        },
        (NumberView::NegInt(x), NumberView::PosInt(y)) => {
            lemma_decimal_digits(y as nat);
            assert(number_text(a)[0] == '-');
        },
        (NumberView::Float(x), NumberView::Float(y)) => {},
        (NumberView::Float(x), _) => {
            lemma_integer_text_unmarked(b, x);
        },
        (_, NumberView::Float(y)) => {
            lemma_integer_text_unmarked(a, y);
        },
    }
}

/// What may follow a value: nothing, or a character that ends it.
spec fn ends(r: Seq<char>) -> bool {
    r.len() == 0 || r[0] == ',' || r[0] == ']' || r[0] == '}'
}

proof fn lemma_number_prefix(a: NumberView, b: NumberView, r: Seq<char>, q: Seq<char>)
    requires
        valid_number(a),
        valid_number(b),
        ends(r),
        ends(q),
        number_text(a) + r == number_text(b) + q,
    ensures
        a == b,
        r == q,
{
    let x = number_text(a);
    let y = number_text(b);
    lemma_number_text_chars(a);
    lemma_number_text_chars(b);
    let n = x.len() as int;
    let m = y.len() as int;
    if n < m {
        assert((x + r).len() == (y + q).len());
        assert((x + r)[n] == r[0]);
        assert((y + q)[n] == y[n]);
    } else if m < n {
        assert((x + r).len() == (y + q).len());
        assert((y + q)[m] == q[0]);
        assert((x + r)[m] == x[m]);
    }
    assert(x =~= (x + r).take(n));
    assert(y =~= (y + q).take(n));
    lemma_number_text_injective(a, b);
    lemma_strip(x, r, q);
}

// ----------------------------------------------------------------------- strings

proof fn lemma_hex_char_injective(a: nat, b: nat)
    requires
        a < 16,
        b < 16,
        hex_char(a) == hex_char(b),
    ensures
        a == b,
{
}

/// No escaped character is the beginning of another one.
proof fn lemma_escaped_prefix(c: char, d: char, r: Seq<char>, q: Seq<char>)
    requires
        escaped(c) + r == escaped(d) + q,
    ensures
        c == d,
        r == q,
{
    let x = escaped(c) + r;
    let y = escaped(d) + q;
    assert(x[0] == escaped(c)[0]);
    assert(y[0] == escaped(d)[0]);
    if x[0] == '\\' {
        assert(x[1] == escaped(c)[1]);
        assert(y[1] == escaped(d)[1]);
        if x[1] == 'u' {
            assert(x[4] == escaped(c)[4]);
            assert(y[4] == escaped(d)[4]);
            assert(x[5] == escaped(c)[5]);
            assert(y[5] == escaped(d)[5]);
            lemma_hex_char_injective(c as nat / 16, d as nat / 16);
            lemma_hex_char_injective(c as nat % 16, d as nat % 16);
        }
    }
    assert(c == d);
    lemma_strip(escaped(c), r, q);
}

proof fn lemma_escaped_all_prefix(s: Seq<char>, t: Seq<char>, r: Seq<char>, q: Seq<char>)
    requires
        escaped_all(s) + seq!['"'] + r == escaped_all(t) + seq!['"'] + q,
    ensures
        s == t,
        r == q,
    decreases s.len(),
{
    let x = escaped_all(s) + seq!['"'] + r;
    let y = escaped_all(t) + seq!['"'] + q;
    if s.len() == 0 {
        assert(x[0] == '"');
        if t.len() > 0 {
            assert(y[0] == escaped(t[0])[0]);
        }
        assert(s =~= t);
        lemma_strip(seq!['"'], r, q);
    } else {
        assert(x[0] == escaped(s[0])[0]);
        if t.len() == 0 {
            assert(y[0] == '"');
        }
        let s1 = escaped_all(s.drop_first()) + seq!['"'] + r;
        let t1 = escaped_all(t.drop_first()) + seq!['"'] + q;
        assert(x =~= escaped(s[0]) + s1);
        assert(y =~= escaped(t[0]) + t1);
        lemma_escaped_prefix(s[0], t[0], s1, t1);
        lemma_escaped_all_prefix(s.drop_first(), t.drop_first(), r, q);
        assert(s =~= seq![s[0]] + s.drop_first());
        assert(t =~= seq![t[0]] + t.drop_first());
    }
}

/// No string literal is the beginning of another one.
proof fn lemma_literal_prefix(s: Seq<char>, t: Seq<char>, r: Seq<char>, q: Seq<char>)
    requires
        json_literal(s) + r == json_literal(t) + q,
    ensures
        s == t,
        r == q,
{
    let s1 = escaped_all(s) + seq!['"'] + r;
    let t1 = escaped_all(t) + seq!['"'] + q;
    assert(json_literal(s) + r =~= seq!['"'] + s1);
    assert(json_literal(t) + q =~= seq!['"'] + t1);
    lemma_strip(seq!['"'], s1, t1);
    lemma_escaped_all_prefix(s, t, r, q);
}

// ------------------------------------------------------------------------ values

/// The kind of a value, told by the first character of its text.
spec fn first_char_fits(v: JsonView, c: char) -> bool {
    match v {
        JsonView::Null => c == 'n',
        JsonView::Bool(b) => c == if b { 't' } else { 'f' },
        JsonView::Number(_) => is_digit(c) || c == '-',
        JsonView::Text(_) => c == '"',
        JsonView::Array(_) => c == '[',
        JsonView::Object(_) => c == '{',
    }
}

proof fn lemma_first_char(v: JsonView)
    requires
        valid_json(v),
    ensures
        canonical(v).len() > 0,
        first_char_fits(v, canonical(v)[0]),
{
    reveal_strlit("null");
    reveal_strlit("true");
    reveal_strlit("false");
    match v {
        JsonView::Number(n) => {
            lemma_number_text_chars(n);
        },
        _ => {},
    }
}

/// Of two values whose texts agree as far as both go, followed by what may
/// follow a value, each is the other.
proof fn lemma_value_prefix(a: JsonView, b: JsonView, r: Seq<char>, q: Seq<char>)
    requires
        valid_json(a),
        valid_json(b),
        ends(r),
        ends(q),
        canonical(a) + r == canonical(b) + q,
    ensures
        a == b,
        r == q,
    decreases a, 0int,
{
    lemma_first_char(a);
    lemma_first_char(b);
    assert((canonical(a) + r)[0] == canonical(a)[0]);
    assert((canonical(b) + q)[0] == canonical(b)[0]);
    match (a, b) {
        (JsonView::Null, JsonView::Null) => {
            lemma_strip(canonical(a), r, q);
        },
        (JsonView::Bool(x), JsonView::Bool(y)) => {
            lemma_strip(canonical(a), r, q);
        },
        (JsonView::Number(x), JsonView::Number(y)) => {
            lemma_number_prefix(x, y, r, q);
        },
        (JsonView::Text(x), JsonView::Text(y)) => {
            lemma_literal_prefix(x, y, r, q);
        },
        (JsonView::Array(x), JsonView::Array(y)) => {
            let s = items_from(x, 0) + seq![']'] + r;
            let t = items_from(y, 0) + seq![']'] + q;
            assert(canonical(a) + r =~= seq!['['] + s);
            assert(canonical(b) + q =~= seq!['['] + t);
            lemma_strip(seq!['['], s, t);
            lemma_items_prefix(x, y, 0, r, q);
            assert(x =~= y);
        },
        (JsonView::Object(x), JsonView::Object(y)) => {
            let ks = ascending(x.dom());
            let kt = ascending(y.dom());
            lemma_ascending_exists(x.dom());
            lemma_ascending_exists(y.dom());
            let s = members_from(x, ks, 0) + seq!['}'] + r;
            let t = members_from(y, kt, 0) + seq!['}'] + q;
            assert(canonical(a) + r =~= seq!['{'] + s);
            assert(canonical(b) + q =~= seq!['{'] + t);
            lemma_strip(seq!['{'], s, t);
            lemma_members_prefix(x, ks, y, kt, 0, r, q);
            assert(ks =~= kt);
            assert forall|k: Seq<char>| #[trigger] x.contains_key(k) implies x[k] == y[k] by {
                assert(ks.to_set().contains(k));
                let i = choose|i: int| 0 <= i < ks.len() && ks[i] == k;
                assert(x[ks[i]] == y[kt[i]]);
            }
            assert(x =~= y);
        },
        _ => {},
    }
}

proof fn lemma_items_prefix(
    x: Seq<JsonView>,
    y: Seq<JsonView>,
    i: int,
    r: Seq<char>,
    q: Seq<char>,
)
    requires
        forall|j: int| 0 <= j < x.len() ==> valid_json(#[trigger] x[j]),
        forall|j: int| 0 <= j < y.len() ==> valid_json(#[trigger] y[j]),
        0 <= i <= x.len(),
        i <= y.len(),
        items_from(x, i) + seq![']'] + r == items_from(y, i) + seq![']'] + q,
    ensures
        x.len() == y.len(),
        forall|j: int| i <= j < x.len() ==> #[trigger] x[j] == y[j],
        r == q,
    decreases x, x.len() - i,
{
    let s = items_from(x, i) + seq![']'] + r;
    let t = items_from(y, i) + seq![']'] + q;
    if i < x.len() {
        lemma_first_char(x[i]);
        assert(s[0] == (comma(i) + canonical(x[i]))[0]);
    } else {
        assert(s[0] == ']');
    }
    if i < y.len() {
        lemma_first_char(y[i]);
        assert(t[0] == (comma(i) + canonical(y[i]))[0]);
    } else {
        assert(t[0] == ']');
    }
    if i == x.len() {
        assert(i == y.len());
        assert(s =~= seq![']'] + r);
        assert(t =~= seq![']'] + q);
        lemma_strip(seq![']'], r, q);
    } else {
        let s1 = items_from(x, i + 1) + seq![']'] + r;
        let t1 = items_from(y, i + 1) + seq![']'] + q;
        assert(s =~= comma(i) + (canonical(x[i]) + s1));
        assert(t =~= comma(i) + (canonical(y[i]) + t1));
        lemma_strip(comma(i), canonical(x[i]) + s1, canonical(y[i]) + t1);
        assert(ends(s1)) by {
            if i + 1 < x.len() {
                assert(s1[0] == ',');
            } else {
                assert(s1[0] == ']');
            }
        }
        assert(ends(t1)) by {
            if i + 1 < y.len() {
                assert(t1[0] == ',');
            } else {
                assert(t1[0] == ']');
            }
        }
        lemma_value_prefix(x[i], y[i], s1, t1);
        lemma_items_prefix(x, y, i + 1, r, q);
    }
}

/// What the members from the `i`-th on start with.
proof fn lemma_members_start(m: Map<Seq<char>, JsonView>, ks: Seq<Seq<char>>, i: int, r: Seq<char>)
    requires
        m.dom().finite(),
        ks.to_set() == m.dom(),
        0 <= i <= ks.len(),
    ensures
        (members_from(m, ks, i) + seq!['}'] + r).len() > 0,
        (members_from(m, ks, i) + seq!['}'] + r)[0] == if i == ks.len() {
            '}'
        } else if i > 0 {
            ','
        } else {
            '"'
        },
{
    if i < ks.len() {
        assert(ks.to_set().contains(ks[i]));
        assert(m.contains_key(ks[i]));
        let head = comma(i) + json_literal(ks[i]);
        assert(members_from(m, ks, i)[0] == head[0]);
    }
}

/// The members from the `i`-th on: the `i`-th, and those after it.
proof fn lemma_members_unfold(m: Map<Seq<char>, JsonView>, ks: Seq<Seq<char>>, i: int, r: Seq<char>)
    requires
        m.dom().finite(),
        ks.to_set() == m.dom(),
        0 <= i < ks.len(),
    ensures
        m.contains_key(ks[i]),
        members_from(m, ks, i) + seq!['}'] + r == comma(i) + (json_literal(ks[i]) + (seq![':'] + (
        canonical(m[ks[i]]) + (members_from(m, ks, i + 1) + seq!['}'] + r)))),
{
    assert(ks.to_set().contains(ks[i]));
    assert(m.contains_key(ks[i]));
    let name = json_literal(ks[i]);
    let value = canonical(m[ks[i]]);
    let rest = members_from(m, ks, i + 1);
    assert(members_from(m, ks, i) == comma(i) + name + seq![':'] + value + rest);
    assert(comma(i) + name + seq![':'] + value + rest + seq!['}'] + r =~= comma(i) + (name + (
    seq![':'] + (value + (rest + seq!['}'] + r)))));
}

proof fn lemma_members_prefix(
    x: Map<Seq<char>, JsonView>,
    ks: Seq<Seq<char>>,
    y: Map<Seq<char>, JsonView>,
    kt: Seq<Seq<char>>,
    i: int,
    r: Seq<char>,
    q: Seq<char>,
)
    requires
        x.dom().finite(),
        y.dom().finite(),
        forall|k: Seq<char>| #[trigger] x.contains_key(k) ==> valid_json(x[k]),
        forall|k: Seq<char>| #[trigger] y.contains_key(k) ==> valid_json(y[k]),
        ks.to_set() == x.dom(),
        kt.to_set() == y.dom(),
        0 <= i <= ks.len(),
        i <= kt.len(),
        members_from(x, ks, i) + seq!['}'] + r == members_from(y, kt, i) + seq!['}'] + q,
    ensures
        ks.len() == kt.len(),
        forall|j: int| i <= j < ks.len() ==> #[trigger] ks[j] == kt[j] && x[ks[j]] == y[kt[j]],
        r == q,
    decreases x, ks.len() - i,
{
    lemma_members_start(x, ks, i, r);
    lemma_members_start(y, kt, i, q);
    if i == ks.len() {
        assert(members_from(x, ks, i) + seq!['}'] + r =~= seq!['}'] + r);
        assert(members_from(y, kt, i) + seq!['}'] + q =~= seq!['}'] + q);
        lemma_strip(seq!['}'], r, q);
    } else {
        lemma_members_unfold(x, ks, i, r);
        lemma_members_unfold(y, kt, i, q);
        let s2 = members_from(x, ks, i + 1) + seq!['}'] + r;
        let t2 = members_from(y, kt, i + 1) + seq!['}'] + q;
        let s1 = seq![':'] + (canonical(x[ks[i]]) + s2);
        let t1 = seq![':'] + (canonical(y[kt[i]]) + t2);
        lemma_strip(comma(i), json_literal(ks[i]) + s1, json_literal(kt[i]) + t1);
        lemma_literal_prefix(ks[i], kt[i], s1, t1);
        lemma_strip(seq![':'], canonical(x[ks[i]]) + s2, canonical(y[kt[i]]) + t2);
        lemma_members_start(x, ks, i + 1, r);
        lemma_members_start(y, kt, i + 1, q);
        lemma_value_prefix(x[ks[i]], y[kt[i]], s2, t2);
        lemma_members_prefix(x, ks, y, kt, i + 1, r, q);
    }
}

/// Two values have the same canonical text if and only if they are the same
/// value, whatever the order in which their members were listed.
pub proof fn law_canonical_text_determines_value(a: JsonView, b: JsonView)
    requires
        valid_json(a),
        valid_json(b),
    ensures
        canonical(a) == canonical(b) <==> a == b,
{
    if canonical(a) == canonical(b) {
        let nothing = Seq::<char>::empty();
        assert(canonical(a) + nothing == canonical(b) + nothing);
        lemma_value_prefix(a, b, nothing, nothing);
    }
}

/// The canonical text of each item.
pub open spec fn item_texts(items: Seq<JsonView>) -> Seq<Seq<char>> {
    items.map_values(|v: JsonView| canonical(v))
}

/// The canonical text of each member that `keys` name: its key as a string
/// literal, a colon, and its value.
pub open spec fn member_texts(m: Map<Seq<char>, JsonView>, keys: Seq<Seq<char>>) -> Seq<Seq<char>> {
    keys.map_values(|k: Seq<char>| json_literal(k) + ":"@ + canonical(m[k]))
}

proof fn lemma_items_joined(items: Seq<JsonView>, i: int)
    requires
        0 <= i <= items.len(),
    ensures
        items_from(items, i) == if i == items.len() {
            Seq::empty()
        } else {
            comma(i) + joined(item_texts(items.skip(i)), ","@)
        },
    decreases items.len() - i,
{
    reveal_strlit(",");
    if i < items.len() {
        lemma_items_joined(items, i + 1);
        let rest = item_texts(items.skip(i + 1));
        let first = canonical(items[i]);
        assert(item_texts(items.skip(i)) =~= seq![first] + rest);
        law_parts_are_joined_by_separators(first, rest, ","@);
        if i + 1 == items.len() {
            assert(item_texts(items.skip(i)) =~= seq![first]);
        } else {
            assert(comma(i + 1) =~= ","@);
        }
        assert(items_from(items, i) =~= comma(i) + joined(item_texts(items.skip(i)), ","@));
    } else {
        assert(items_from(items, i) =~= Seq::empty());
    }
}

proof fn lemma_members_joined(m: Map<Seq<char>, JsonView>, keys: Seq<Seq<char>>, i: int)
    requires
        0 <= i <= keys.len(),
        m.dom().finite(),
        forall|j: int| 0 <= j < keys.len() ==> m.contains_key(#[trigger] keys[j]),
    ensures
        members_from(m, keys, i) == if i == keys.len() {
            Seq::empty()
        } else {
            comma(i) + joined(member_texts(m, keys.skip(i)), ","@)
        },
    decreases keys.len() - i,
{
    reveal_strlit(",");
    reveal_strlit(":");
    if i < keys.len() {
        lemma_members_joined(m, keys, i + 1);
        let rest = member_texts(m, keys.skip(i + 1));
        let first = json_literal(keys[i]) + ":"@ + canonical(m[keys[i]]);
        assert(m.contains_key(keys[i]));
        assert(seq![':'] =~= ":"@);
        assert(member_texts(m, keys.skip(i)) =~= seq![first] + rest);
        law_parts_are_joined_by_separators(first, rest, ","@);
        if i + 1 == keys.len() {
            assert(member_texts(m, keys.skip(i)) =~= seq![first]);
        } else {
            assert(comma(i + 1) =~= ","@);
        }
        assert(members_from(m, keys, i) =~= comma(i) + joined(member_texts(m, keys.skip(i)), ","@));
    } else {
        assert(members_from(m, keys, i) =~= Seq::empty());
    }
}

/// The canonical text is JSON without white space: the words for null, true and
/// false; numbers in decimal; texts as string literals; lists in brackets and
/// objects in braces, with commas between what they hold, and the members of an
/// object in ascending order of their keys.
pub proof fn law_canonical_text_is_compact_json(
    s: Seq<char>,
    items: Seq<JsonView>,
    m: Map<Seq<char>, JsonView>,
    n: u64,
    i: i64,
)
    ensures
        canonical(JsonView::Null) == "null"@,
        canonical(JsonView::Bool(true)) == "true"@,
        canonical(JsonView::Bool(false)) == "false"@,
        canonical(JsonView::Text(s)) == json_literal(s),
        canonical(JsonView::Number(NumberView::PosInt(n))) == decimal(n as nat),
        canonical(JsonView::Number(NumberView::NegInt(i))) == decimal_int(i as int),
        canonical(JsonView::Number(NumberView::Float(s))) == s,
        canonical(JsonView::Array(items)) == "["@ + joined(item_texts(items), ","@) + "]"@,
        m.dom().finite() ==> canonical(JsonView::Object(m)) == "{"@ + joined(
            member_texts(m, ascending(m.dom())),
            ","@,
        ) + "}"@,
{
    reveal_strlit("[");
    reveal_strlit("]");
    reveal_strlit("{");
    reveal_strlit("}");
    lemma_items_joined(items, 0);
    assert(items.skip(0) =~= items);
    assert(canonical(JsonView::Array(items)) =~= "["@ + joined(item_texts(items), ","@) + "]"@);
    if m.dom().finite() {
        let keys = ascending(m.dom());
        lemma_ascending_exists(m.dom());
        assert forall|j: int| 0 <= j < keys.len() implies m.contains_key(#[trigger] keys[j]) by {
            assert(keys.to_set().contains(keys[j]));
        }
        lemma_members_joined(m, keys, 0);
        assert(keys.skip(0) =~= keys);
        assert(canonical(JsonView::Object(m)) =~= "{"@ + joined(member_texts(m, keys), ","@)
            + "}"@);
    }
}

} // verus!
