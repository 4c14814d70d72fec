//! Text: building it, writing numbers in it, ordering it, and turning names
//! into identifiers.

use vstd::prelude::*;
use vstd::string::*;

verus! {

/// `String::push` appends the given character to the end of the string.
pub assume_specification[ std::string::String::push ](s: &mut std::string::String, c: char)
    ensures
        final(s)@ == old(s)@.push(c),
;

/// The characters of `s`, in order.
pub fn chars_of(s: &str) -> (out: Vec<char>)
    ensures
        out@ == s@,
{
    let mut out: Vec<char> = Vec::new();
    for c in it: s.chars()
        invariant
            it.seq() == s@,
            out@ == s@.take(it.index() as int),
    {
        out.push(c);
        assert(s@.take(it.index() as int + 1) =~= s@.take(it.index() as int).push(c));
    }
    assert(s@.take(s@.len() as int) =~= s@);
    out
}

/// The text made of the given characters.
pub fn text_of(chars: &Vec<char>) -> (out: String)
    ensures
        out@ == chars@,
{
    let mut out: String = String::new();
    for i in 0..chars.len()
        invariant
            out@ == chars@.take(i as int),
    {
        out.push(chars[i]);
        assert(chars@.take(i as int + 1) =~= chars@.take(i as int).push(chars@[i as int]));
    }
    assert(chars@.take(chars@.len() as int) =~= chars@);
    out
}

/// Whether `a` and `b` hold the same characters.
pub fn same_text(a: &str, b: &str) -> (r: bool)
    ensures
        r == (a@ == b@),
{
    let x: Vec<char> = chars_of(a);
    let y: Vec<char> = chars_of(b);
    if x.len() != y.len() {
        return false;
    }
    for i in 0..x.len()
        invariant
            x.len() == y.len(),
            x@ == a@,
            y@ == b@,
            forall|j: int| 0 <= j < i ==> x@[j] == y@[j],
    {
        if x[i] != y[i] {
            return false;
        }
    }
    assert(x@ =~= y@);
    true
}

/// What the given strings hold.
pub open spec fn texts(s: Seq<String>) -> Seq<Seq<char>> {
    s.map_values(|x: String| x@)
}

/// The parts one after the other, with `sep` between each two.
pub open spec fn joined(parts: Seq<Seq<char>>, sep: Seq<char>) -> Seq<char>
    decreases parts.len(),
{
    if parts.len() == 0 {
        Seq::empty()
    } else if parts.len() == 1 {
        parts[0]
    } else {
        joined(parts.drop_last(), sep) + sep + parts.last()
    }
}

/// The parts one after the other, with `sep` between each two.
pub fn join(parts: &Vec<String>, sep: &str) -> (out: String)
    ensures
        out@ == joined(texts(parts@), sep@),
{
    let mut out: String = String::new();
    for i in 0..parts.len()
        invariant
            out@ == joined(texts(parts@).take(i as int), sep@),
    {
        if i > 0 {
            out.append(sep);
        }
        out.append(parts[i].as_str());
        proof {
            let taken = texts(parts@).take(i as int + 1);
            assert(taken.drop_last() =~= texts(parts@).take(i as int));
            assert(out@ =~= joined(taken, sep@));
        }
    }
    assert(texts(parts@).take(parts@.len() as int) =~= texts(parts@));
    out
}

// ---------------------------------------------------------------- identifiers

/// An ASCII letter or an ASCII digit.
pub open spec fn is_ascii_alphanumeric_char(c: char) -> bool {
    ||| 'a' <= c <= 'z'
    ||| 'A' <= c <= 'Z'
    ||| '0' <= c <= '9'
}

fn is_ascii_alphanumeric(c: char) -> (r: bool)
    ensures
        r == is_ascii_alphanumeric_char(c),
{
    ('a' <= c && c <= 'z') || ('A' <= c && c <= 'Z') || ('0' <= c && c <= '9')
}

/// A character that a SurrealQL identifier keeps.
pub open spec fn is_ident_char(c: char) -> bool {
    is_ascii_alphanumeric_char(c) || c == '_'
}

/// A character that a part of a record id keeps.
pub open spec fn is_id_part_char(c: char) -> bool {
    is_ascii_alphanumeric_char(c) || c == '_' || c == '-'
}

/// `s` with `_` in place of every character that an identifier does not keep.
pub open spec fn ident(s: Seq<char>) -> Seq<char> {
    s.map_values(|c: char| if is_ident_char(c) { c } else { '_' })
}

/// `s` with `_` in place of every character that a part of a record id does
/// not keep.
pub open spec fn id_part(s: Seq<char>) -> Seq<char> {
    s.map_values(|c: char| if is_id_part_char(c) { c } else { '_' })
}

/// The SurrealQL identifier of a label or a field name: characters other than
/// ASCII letters, ASCII digits and `_` become `_`.
pub fn sanitize_ident(s: &str) -> (out: String)
    ensures
        out@ == ident(s@),
{
    let chars: Vec<char> = chars_of(s);
    let mut out: String = String::new();
    for i in 0..chars.len()
        invariant
            chars@ == s@,
            out@ == ident(s@.take(i as int)),
    {
        let c = chars[i];
        if is_ascii_alphanumeric(c) || c == '_' {
            out.push(c);
        } else {
            out.push('_');
        }
        assert(s@.take(i as int + 1) =~= s@.take(i as int).push(c));
        assert(out@ =~= ident(s@.take(i as int + 1)));
    }
    assert(s@.take(s@.len() as int) =~= s@);
    out
}

/// A part of a record id: characters other than ASCII letters, ASCII digits,
/// `_` and `-` become `_`.
pub fn sanitize_id_part(s: &str) -> (out: String)
    ensures
        out@ == id_part(s@),
{
    let chars: Vec<char> = chars_of(s);
    let mut out: String = String::new();
    for i in 0..chars.len()
        invariant
            chars@ == s@,
            out@ == id_part(s@.take(i as int)),
    {
        let c = chars[i];
        if is_ascii_alphanumeric(c) || c == '_' || c == '-' {
            out.push(c);
        } else {
            out.push('_');
        }
        assert(s@.take(i as int + 1) =~= s@.take(i as int).push(c));
        assert(out@ =~= id_part(s@.take(i as int + 1)));
    }
    assert(s@.take(s@.len() as int) =~= s@);
    out
}

// -------------------------------------------------------------------- numbers

/// The decimal digit `d`, for `d` below ten.
pub open spec fn digit_char(d: nat) -> char {
    ('0' as u32 + d) as char
}

/// `n` in decimal, without leading zeros.
pub open spec fn decimal(n: nat) -> Seq<char>
    decreases n,
{
    if n < 10 {
        seq![digit_char(n)]
    } else {
        decimal(n / 10).push(digit_char(n % 10))
    }
}

/// `i` in decimal, with a leading `-` when it is negative.
pub open spec fn decimal_int(i: int) -> Seq<char> {
    if i < 0 {
        seq!['-'] + decimal((-i) as nat)
    } else {
        decimal(i as nat)
    }
}

fn digit(d: u8) -> (c: char)
    requires
        d < 10,
    ensures
        c == digit_char(d as nat),
{
    (48u8 + d) as char
}

/// `n` in decimal.
pub fn u64_text(n: u64) -> (out: String)
    ensures
        out@ == decimal(n as nat),
    decreases n,
{
    if n < 10 {
        let mut out: String = String::new();
        out.push(digit(n as u8));
        assert(out@ =~= decimal(n as nat));
        out
    } else {
        let mut out: String = u64_text(n / 10);
        out.push(digit((n % 10) as u8));
        out
    }
}

/// `n` in decimal, with a leading `-` when it is negative.
pub fn i64_text(n: i64) -> (out: String)
    ensures
        out@ == decimal_int(n as int),
{
    if n < 0 {
        let mut out: String = String::new();
        out.push('-');
        assert(out@ =~= seq!['-']);
        let magnitude: u64 = if n == i64::MIN {
            0x8000_0000_0000_0000u64
        } else {
            (-n) as u64
        };
        let digits: String = u64_text(magnitude);
        out.append(digits.as_str());
        out
    } else {
        u64_text(n as u64)
    }
}

// ------------------------------------------------------------------------- blanks

/// A character with the Unicode property `White_Space`.
pub open spec fn is_white_space(c: char) -> bool {
    let n = c as u32;
    ||| 0x09 <= n <= 0x0d
    ||| n == 0x20
    ||| n == 0x85
    ||| n == 0xa0
    ||| n == 0x1680
    ||| 0x2000 <= n <= 0x200a
    ||| n == 0x2028
    ||| n == 0x2029
    ||| n == 0x202f
    ||| n == 0x205f
    ||| n == 0x3000
}

/// Text without a character that shows.
pub open spec fn blank(s: Seq<char>) -> bool {
    forall|i: int| 0 <= i < s.len() ==> is_white_space(#[trigger] s[i])
}

fn is_white(c: char) -> (r: bool)
    ensures
        r == is_white_space(c),
{
    let n: u32 = c as u32;
    (0x09 <= n && n <= 0x0d) || n == 0x20 || n == 0x85 || n == 0xa0 || n == 0x1680 || (0x2000 <= n
        && n <= 0x200a) || n == 0x2028 || n == 0x2029 || n == 0x202f || n == 0x205f || n == 0x3000
}

/// Whether the text has no character that shows.
pub fn is_blank(s: &str) -> (r: bool)
    ensures
        r == blank(s@),
{
    let chars: Vec<char> = chars_of(s);
    for i in 0..chars.len()
        invariant
            chars@ == s@,
            forall|j: int| 0 <= j < i ==> is_white_space(#[trigger] s@[j]),
    {
        if !is_white(chars[i]) {
            assert(!is_white_space(s@[i as int]));
            return false;
        }
    }
    true
}

// ----------------------------------------------------------------------------- laws

/// An identifier keeps ASCII letters, ASCII digits and `_`, each in its place,
/// and has `_` in place of every other character. A part of a record id keeps
/// `-` too.
pub proof fn law_other_characters_become_underscores(s: Seq<char>, i: int)
    requires
        0 <= i < s.len(),
    ensures
        ({
            let c = s[i];
            let plain = ('a' <= c && c <= 'z') || ('A' <= c && c <= 'Z') || ('0' <= c && c <= '9')
                || c == '_';
            &&& ident(s).len() == s.len()
            &&& id_part(s).len() == s.len()
            &&& plain ==> ident(s)[i] == c && id_part(s)[i] == c
            &&& c == '-' ==> ident(s)[i] == '_' && id_part(s)[i] == '-'
            &&& !plain && c != '-' ==> ident(s)[i] == '_' && id_part(s)[i] == '_'
        }),
{
}

/// Joining puts one separator between each two parts, and none before the first
/// or behind the last: a part in front of others stands before a separator and
/// the others joined.
pub proof fn law_parts_are_joined_by_separators(
    first: Seq<char>,
    parts: Seq<Seq<char>>,
    sep: Seq<char>,
)
    ensures
        joined(Seq::empty(), sep).len() == 0,
        joined(seq![first], sep) == first,
        parts.len() > 0 ==> joined(seq![first] + parts, sep) == first + sep + joined(parts, sep),
    decreases parts.len(),
{
    let all = seq![first] + parts;
    if parts.len() == 1 {
        assert(all.drop_last() =~= seq![first]);
        assert(joined(all.drop_last(), sep) == first);
        assert(joined(all, sep) =~= first + sep + joined(parts, sep));
    } else if parts.len() > 1 {
        law_parts_are_joined_by_separators(first, parts.drop_last(), sep);
        assert(all.drop_last() =~= seq![first] + parts.drop_last());
        assert(joined(all, sep) =~= first + sep + joined(parts, sep));
    }
}

/// The number that decimal digits stand for.
pub open spec fn number_of(digits: Seq<char>) -> nat
    decreases digits.len(),
{
    if digits.len() == 0 {
        0
    } else {
        number_of(digits.drop_last()) * 10 + (digits.last() as nat - '0' as nat) as nat
    }
}

/// The text of a number is made of its decimal digits: it is read back as the
/// number, and has no leading zero but that of zero. A negative number has the
/// digits of its opposite behind a `-`.
pub proof fn law_numbers_are_read_back(n: nat, i: int)
    ensures
        number_of(decimal(n)) == n,
        decimal(n).len() > 0,
        forall|k: int| 0 <= k < decimal(n).len() ==> '0' <= #[trigger] decimal(n)[k] <= '9',
        n > 0 ==> decimal(n)[0] != '0',
        i >= 0 ==> decimal_int(i) == decimal(i as nat),
        i < 0 ==> decimal_int(i) == seq!['-'] + decimal((-i) as nat),
    decreases n,
{
    let last = digit_char(n % 10);
    assert('0' <= last <= '9' && last as nat - '0' as nat == n % 10);
    if n >= 10 {
        law_numbers_are_read_back(n / 10, i);
        assert(decimal(n).drop_last() =~= decimal(n / 10));
    } else {
        assert(decimal(n).drop_last() =~= Seq::empty());
        assert(number_of(decimal(n).drop_last()) == 0);
    }
}

/// Text is blank exactly where each of its characters is a control character
/// for spacing, a space, or one of the other spaces and line separators.
pub proof fn law_blank_text_has_spaces_alone(s: Seq<char>)
    ensures
        blank(s) <==> !exists|i: int|
            0 <= i < s.len() && !spaces().contains((#[trigger] s[i]) as u32),
{
    let all = spaces();
    assert forall|c: char| is_white_space(c) == all.contains(#[trigger] (c as u32)) by {
        let n = c as u32;
        if is_white_space(c) {
            let at = if n <= 0x0d {
                n - 0x09
            } else if n == 0x20 {
                5
            } else if n == 0x85 {
                6
            } else if n == 0xa0 {
                7
            } else if n == 0x1680 {
                8
            } else if n <= 0x200a {
                n - 0x2000 + 9
            } else if n == 0x2028 {
                20
            } else if n == 0x2029 {
                21
            } else if n == 0x202f {
                22
            } else if n == 0x205f {
                23
            } else {
                24
            };
            assert(all[at] == n);
        }
    }
    if blank(s) {
        assert forall|i: int| 0 <= i < s.len() implies all.contains((#[trigger] s[i]) as u32) by {
            assert(is_white_space(s[i]));
        }
    } else {
        let i = choose|i: int| 0 <= i < s.len() && !is_white_space(#[trigger] s[i]);
        assert(!all.contains(s[i] as u32));
    }
}

/// The code points of the characters that do not show.
pub open spec fn spaces() -> Seq<u32> {
    seq![
        0x09u32, 0x0a, 0x0b, 0x0c, 0x0d, 0x20, 0x85, 0xa0, 0x1680, 0x2000, 0x2001, 0x2002, 0x2003,
        0x2004, 0x2005, 0x2006, 0x2007, 0x2008, 0x2009, 0x200a, 0x2028, 0x2029, 0x202f, 0x205f,
        0x3000,
    ]
}

} // verus!
