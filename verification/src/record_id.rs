//! Record ids: readable parts, and a hash of the key that the record stands
//! for.

use crate::canonical::{canonical, canonical_json, hex_char};
use crate::canonical_law::{is_digit, lemma_decimal_digits, lemma_decimal_injective};
use crate::json::{Json, JsonView};
use crate::text::{decimal, decimal_int, i64_text, id_part, sanitize_id_part};
use blake2::Digest;
use vstd::prelude::*;
use vstd::string::*;
use vstd::utf8::encode_utf8;

verus! {

/// The BLAKE2b digest of 64 bytes of `data`.
pub uninterp spec fn blake2b512(data: Seq<u8>) -> Seq<u8>;

/// `blake2::Blake2b512`, created, given all of `data` and finalized: the
/// digest, of 64 bytes. Nothing else is said of the digest, least of all that
/// different data have different digests.
#[verifier::external_body]
fn blake2b512_digest(data: &[u8]) -> (out: Vec<u8>)
    ensures
        out@ == blake2b512(data@),
        out@.len() == 64,
{
    let mut hasher = blake2::Blake2b512::new();
    hasher.update(data);
    hasher.finalize().to_vec()
}

/// `bytes` in hexadecimal, two digits in lower case for each byte.
pub open spec fn hex_text(bytes: Seq<u8>) -> Seq<char> {
    Seq::new(
        2 * bytes.len(),
        |i: int|
            if i % 2 == 0 {
                hex_char(bytes[i / 2] as nat / 16)
            } else {
                hex_char(bytes[i / 2] as nat % 16)
            },
    )
}

/// `hex::encode`: two hexadecimal digits in lower case for each byte, the
/// higher half first.
#[verifier::external_body]
fn hex_encode(bytes: &Vec<u8>) -> (out: String)
    ensures
        out@ == hex_text(bytes@),
{
    hex::encode(bytes)
}

/// The text of a digest.
pub fn digest_text(digest: &Vec<u8>) -> (out: String)
    ensures
        out@ == hex_text(digest@),
{
    hex_encode(digest)
}

/// The hash of a JSON value: the hexadecimal text of the digest of its
/// canonical text.
pub open spec fn stable_hash(v: JsonView) -> Seq<char> {
    hex_text(blake2b512(encode_utf8(canonical(v))))
}

/// The hash of a JSON value. It depends on the value alone, not on the order
/// in which the members of its objects are listed.
pub fn stable_hash_json(v: &Json) -> (out: String)
    ensures
        out@ == stable_hash(v@),
        out@.len() == 128,
{
    let mut s: String = String::new();
    canonical_json(v, &mut s);
    assert(s@ =~= canonical(v@));
    let digest: Vec<u8> = blake2b512_digest(s.as_str().as_bytes());
    digest_text(&digest)
}

/// Three parts with `__` between them.
pub open spec fn three_parts(a: Seq<char>, b: Seq<char>, c: Seq<char>) -> Seq<char> {
    a + "__"@ + b + "__"@ + c
}

/// Three parts with `__` between them.
pub fn join_parts(a: &str, b: &str, c: &str) -> (out: String)
    ensures
        out@ == three_parts(a@, b@, c@),
{
    let mut out: String = String::from_str(a);
    out.append("__");
    out.append(b);
    out.append("__");
    out.append(c);
    out
}

/// The id of a setup record whose key has the hash `hash`.
pub open spec fn setup_id(flow_name: Seq<char>, resource_type: Seq<char>, hash: Seq<char>) -> Seq<
    char,
> {
    three_parts(id_part(flow_name), id_part(resource_type), hash)
}

/// The id of a tracking record, or of a source state record, whose key has the
/// hash `hash`.
pub open spec fn source_id_text(table: Seq<char>, source_id: i32, hash: Seq<char>) -> Seq<char> {
    three_parts(id_part(table), decimal_int(source_id as int), hash)
}

/// The id of the setup record of a flow's resource.
pub fn setup_record_id(flow_name: &str, resource_type: &str, key: &Json) -> (out: String)
    ensures
        out@ == setup_id(flow_name@, resource_type@, stable_hash(key@)),
{
    let a: String = sanitize_id_part(flow_name);
    let b: String = sanitize_id_part(resource_type);
    let c: String = stable_hash_json(key);
    join_parts(a.as_str(), b.as_str(), c.as_str())
}

/// The id of the tracking record of a source's row.
pub fn tracking_record_id(flow_table: &str, source_id: i32, source_key: &Json) -> (out: String)
    ensures
        out@ == source_id_text(flow_table@, source_id, stable_hash(source_key@)),
{
    let a: String = sanitize_id_part(flow_table);
    let b: String = i64_text(source_id as i64);
    let c: String = stable_hash_json(source_key);
    join_parts(a.as_str(), b.as_str(), c.as_str())
}

/// The id of a source's state record.
pub fn source_state_record_id(flow_table: &str, source_id: i32, key: &Json) -> (out: String)
    ensures
        out@ == source_id_text(flow_table@, source_id, stable_hash(key@)),
{
    let a: String = sanitize_id_part(flow_table);
    let b: String = i64_text(source_id as i64);
    let c: String = stable_hash_json(key);
    join_parts(a.as_str(), b.as_str(), c.as_str())
}

// ----------------------------------------------------------------------------- laws

proof fn lemma_decimal_int(i: int)
    ensures
        decimal_int(i).len() > 0,
        forall|k: int| 0 <= k < decimal_int(i).len() ==> #[trigger] decimal_int(i)[k] != '_',
{
    if i < 0 {
        lemma_decimal_digits((-i) as nat);
        assert forall|k: int| 0 <= k < decimal_int(i).len() implies #[trigger] decimal_int(i)[k]
            != '_' by {
            if k > 0 {
                assert(decimal_int(i)[k] == decimal((-i) as nat)[k - 1]);
            }
        }
    } else {
        lemma_decimal_digits(i as nat);
    }
}

proof fn lemma_decimal_int_injective(i: int, j: int)
    requires
        decimal_int(i) == decimal_int(j),
    ensures
        i == j,
{
    if i < 0 && j < 0 {
        assert(decimal_int(i).skip(1) =~= decimal((-i) as nat));
        assert(decimal_int(j).skip(1) =~= decimal((-j) as nat));
        lemma_decimal_injective((-i) as nat, (-j) as nat);
    } else if i >= 0 && j >= 0 {
        lemma_decimal_injective(i as nat, j as nat);
    } else if i < 0 {
        lemma_decimal_digits(j as nat);
        assert(decimal_int(i)[0] == '-');
        assert(is_digit(decimal(j as nat)[0]));
    } else {
        lemma_decimal_digits(i as nat);
        assert(decimal_int(j)[0] == '-');
        assert(is_digit(decimal(i as nat)[0]));
    }
}

/// Two records of tracking or source state tables have the same id only if
/// they have the same table part, the same source and the same key hash.
pub proof fn law_source_record_ids_are_distinct(
    table1: Seq<char>,
    source1: i32,
    hash1: Seq<char>,
    table2: Seq<char>,
    source2: i32,
    hash2: Seq<char>,
)
    requires
        hash1.len() == hash2.len(),
    ensures
        source_id_text(table1, source1, hash1) == source_id_text(table2, source2, hash2) <==> {
            &&& id_part(table1) == id_part(table2)
            &&& source1 == source2
            &&& hash1 == hash2
        },
{
    reveal_strlit("__");
    let x = source_id_text(table1, source1, hash1);
    let y = source_id_text(table2, source2, hash2);
    if x == y {
        let a = id_part(table1);
        let b = id_part(table2);
        let d = decimal_int(source1 as int);
        let e = decimal_int(source2 as int);
        lemma_decimal_int(source1 as int);
        lemma_decimal_int(source2 as int);
        let n = x.len() - hash1.len();
        assert(x.skip(n) =~= hash1);
        assert(y.skip(n) =~= hash2);
        // the number ends two places before the hash, and starts after an underscore
        assert(a.len() + d.len() == b.len() + e.len());
        if d.len() < e.len() {
            let k = n - 2 - d.len() - 1;
            assert(x[k] == '_');
            assert(y[k] == e[k - b.len() - 2]);
        } else if e.len() < d.len() {
            let k = n - 2 - e.len() - 1;
            assert(y[k] == '_');
            assert(x[k] == d[k - a.len() - 2]);
        }
        assert(x.take(a.len() as int) =~= a);
        assert(y.take(a.len() as int) =~= b);
        let start = a.len() as int + 2;
        assert(x.subrange(start, start + d.len()) =~= d);
        assert(y.subrange(start, start + d.len()) =~= e);
        lemma_decimal_int_injective(source1 as int, source2 as int);
    }
}

/// Two setup records of one flow have the same id only if they have the same
/// resource type part and the same key hash.
pub proof fn law_setup_record_ids_are_distinct(
    flow_name: Seq<char>,
    type1: Seq<char>,
    hash1: Seq<char>,
    type2: Seq<char>,
    hash2: Seq<char>,
)
    requires
        hash1.len() == hash2.len(),
    ensures
        setup_id(flow_name, type1, hash1) == setup_id(flow_name, type2, hash2) <==> {
            &&& id_part(type1) == id_part(type2)
            &&& hash1 == hash2
        },
{
    reveal_strlit("__");
    let x = setup_id(flow_name, type1, hash1);
    let y = setup_id(flow_name, type2, hash2);
    if x == y {
        let a = id_part(flow_name).len() + 2;
        let n = x.len() - hash1.len();
        assert(x.skip(n) =~= hash1);
        assert(y.skip(n) =~= hash2);
        assert(x.subrange(a as int, n - 2) =~= id_part(type1));
        assert(y.subrange(a as int, n - 2) =~= id_part(type2));
    }
}

/// Record ids are made of readable parts and a hash: that of a setup record of
/// the flow, the resource type and the hash of the key; that of a tracking or
/// source state record of the table, the number of the source and the hash of
/// the key.
pub proof fn law_record_ids_show_their_parts(
    flow: Seq<char>,
    resource_type: Seq<char>,
    table: Seq<char>,
    source_id: i32,
    hash: Seq<char>,
)
    ensures
        setup_id(flow, resource_type, hash) == id_part(flow) + "__"@ + id_part(resource_type)
            + "__"@ + hash,
        source_id_text(table, source_id, hash) == id_part(table) + "__"@ + decimal_int(
            source_id as int,
        ) + "__"@ + hash,
{
}

/// The hash of a key depends on its canonical text alone: it is the digest of
/// that text's bytes.
pub proof fn law_hashes_are_digests_of_the_canonical_text(v: JsonView)
    ensures
        stable_hash(v).len() == 2 * blake2b512(encode_utf8(canonical(v))).len(),
        forall|i: int|
            0 <= i < blake2b512(encode_utf8(canonical(v))).len() ==> {
                let b = #[trigger] blake2b512(encode_utf8(canonical(v)))[i];
                &&& stable_hash(v)[2 * i] == hex_char(b as nat / 16)
                &&& stable_hash(v)[2 * i + 1] == hex_char(b as nat % 16)
            },
{
}

} // verus!
