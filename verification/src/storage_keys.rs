//! The keys under which records and index entries are stored.

use vstd::prelude::*;
use vstd::string::*;
use crate::clock::Timestamp;
use crate::ident;
use crate::text;

verus! {

/// The bytes of the key that `text` writes.
pub open spec fn key(text: Seq<char>) -> Seq<u8> {
    vstd::utf8::encode_utf8(text)
}

pub open spec fn spec_did_key(did: Seq<char>) -> Seq<u8> {
    key("did:"@ + did)
}

pub open spec fn spec_operation_key(cid: Seq<char>) -> Seq<u8> {
    key("op:"@ + cid)
}

/// What the keys of the operations of `did` begin with.
pub open spec fn spec_did_operations_prefix(did: Seq<char>) -> Seq<u8> {
    key("did_ops:"@ + did + ":"@)
}

pub open spec fn spec_operation_by_did_key(did: Seq<char>, millis: int) -> Seq<u8> {
    key("did_ops:"@ + did + ":"@ + text::decimal(millis))
}

pub open spec fn spec_job_key(job_id: u128) -> Seq<u8> {
    key("job:"@ + ident::id_text(job_id))
}

pub open spec fn spec_did_index_key(millis: int, did: Seq<char>) -> Seq<u8> {
    key("did_idx:"@ + text::decimal(millis) + ":"@ + did)
}

pub open spec fn spec_operation_index_key(millis: int, cid: Seq<char>) -> Seq<u8> {
    key("op_idx:"@ + text::decimal(millis) + ":"@ + cid)
}

pub open spec fn spec_peer_key(peer_id: Seq<char>) -> Seq<u8> {
    key("peer:"@ + peer_id)
}

/// The key of the record of a DID.
pub fn did_key(did: &str) -> (r: Vec<u8>)
    ensures
        r@ == spec_did_key(did@),
{
    "did:".to_owned().concat(did).as_str().as_bytes_vec()
}

/// The key of an operation.
pub fn operation_key(cid: &str) -> (r: Vec<u8>)
    ensures
        r@ == spec_operation_key(cid@),
{
    "op:".to_owned().concat(cid).as_str().as_bytes_vec()
}

/// What the keys of the operations of a DID begin with.
pub fn did_operations_prefix(did: &str) -> (r: Vec<u8>)
    ensures
        r@ == spec_did_operations_prefix(did@),
{
    "did_ops:".to_owned().concat(did).concat(":").as_str().as_bytes_vec()
}

/// The key under which an operation is found by its DID.
pub fn operation_by_did_key(did: &str, indexed_at: Timestamp) -> (r: Vec<u8>)
    ensures
        r@ == spec_operation_by_did_key(did@, indexed_at.spec_millis()),
{
    let mut out = "did_ops:".to_owned().concat(did).concat(":");
    text::push_signed(&mut out, indexed_at.millis());
    out.as_str().as_bytes_vec()
}

/// The key of a job.
pub fn job_key(job_id: u128) -> (r: Vec<u8>)
    ensures
        r@ == spec_job_key(job_id),
{
    "job:".to_owned().concat(ident::text_of_id(job_id).as_str()).as_str().as_bytes_vec()
}

/// The key of the totals.
pub fn stats_key() -> (r: Vec<u8>)
    ensures
        r@ == key("stats"@),
{
    "stats".as_bytes_vec()
}

/// The key under which a DID is found by the time of its last change.
pub fn did_index_key(updated_at: Timestamp, did: &str) -> (r: Vec<u8>)
    ensures
        r@ == spec_did_index_key(updated_at.spec_millis(), did@),
{
    let mut out = "did_idx:".to_owned();
    text::push_signed(&mut out, updated_at.millis());
    out.concat(":").concat(did).as_str().as_bytes_vec()
}

/// The key under which an operation is found by the time it was taken in.
pub fn operation_index_key(indexed_at: Timestamp, cid: &str) -> (r: Vec<u8>)
    ensures
        r@ == spec_operation_index_key(indexed_at.spec_millis(), cid@),
{
    let mut out = "op_idx:".to_owned();
    text::push_signed(&mut out, indexed_at.millis());
    out.concat(":").concat(cid).as_str().as_bytes_vec()
}

/// The key of the settings.
pub fn settings_key() -> (r: Vec<u8>)
    ensures
        r@ == key("system_settings"@),
{
    "system_settings".as_bytes_vec()
}

/// The key of the scraper's configuration.
pub fn scraper_config_key() -> (r: Vec<u8>)
    ensures
        r@ == key("scraper_config"@),
{
    "scraper_config".as_bytes_vec()
}

/// The key of a peer.
pub fn peer_key(peer_id: &str) -> (r: Vec<u8>)
    ensures
        r@ == spec_peer_key(peer_id@),
{
    "peer:".to_owned().concat(peer_id).as_str().as_bytes_vec()
}

proof fn lemma_same_tail(head: Seq<char>, a: Seq<char>, b: Seq<char>)
    requires
        key(head + a) == key(head + b),
    ensures
        a == b,
{
    text::lemma_encode_injective(head + a, head + b);
    assert((head + a).skip(head.len() as int) =~= a);
    assert((head + b).skip(head.len() as int) =~= b);
}

/// Read as text, a key says what it is a key of and names it; the keys of an
/// index name the time before it, that of an operation's DID the time behind it.
pub proof fn law_keys_read_as_text(name: Seq<char>, id: u128, millis: int)
    ensures
        vstd::utf8::decode_utf8(spec_did_key(name)) == "did:"@ + name,
        vstd::utf8::decode_utf8(spec_operation_key(name)) == "op:"@ + name,
        vstd::utf8::decode_utf8(spec_peer_key(name)) == "peer:"@ + name,
        vstd::utf8::decode_utf8(spec_job_key(id)) == "job:"@ + ident::id_text(id),
        vstd::utf8::decode_utf8(spec_did_index_key(millis, name)) == "did_idx:"@ + text::decimal(
            millis,
        ) + ":"@ + name,
        vstd::utf8::decode_utf8(spec_operation_index_key(millis, name)) == "op_idx:"@
            + text::decimal(millis) + ":"@ + name,
        vstd::utf8::decode_utf8(spec_operation_by_did_key(name, millis)) == "did_ops:"@ + name
            + ":"@ + text::decimal(millis),
        vstd::utf8::decode_utf8(spec_did_operations_prefix(name)) == "did_ops:"@ + name + ":"@,
{
    vstd::utf8::encode_utf8_decode_utf8("did:"@ + name);
    vstd::utf8::encode_utf8_decode_utf8("op:"@ + name);
    vstd::utf8::encode_utf8_decode_utf8("peer:"@ + name);
    vstd::utf8::encode_utf8_decode_utf8("job:"@ + ident::id_text(id));
    vstd::utf8::encode_utf8_decode_utf8("did_idx:"@ + text::decimal(millis) + ":"@ + name);
    vstd::utf8::encode_utf8_decode_utf8("op_idx:"@ + text::decimal(millis) + ":"@ + name);
    vstd::utf8::encode_utf8_decode_utf8("did_ops:"@ + name + ":"@ + text::decimal(millis));
    vstd::utf8::encode_utf8_decode_utf8("did_ops:"@ + name + ":"@);
}

/// Different DIDs, operations and peers have different keys.
pub proof fn law_text_keys_differ(a: Seq<char>, b: Seq<char>)
    requires
        a != b,
    ensures
        spec_did_key(a) != spec_did_key(b),
        spec_operation_key(a) != spec_operation_key(b),
        spec_peer_key(a) != spec_peer_key(b),
{
    if spec_did_key(a) == spec_did_key(b) {
        lemma_same_tail("did:"@, a, b);
    }
    if spec_operation_key(a) == spec_operation_key(b) {
        lemma_same_tail("op:"@, a, b);
    }
    if spec_peer_key(a) == spec_peer_key(b) {
        lemma_same_tail("peer:"@, a, b);
    }
}

proof fn lemma_hex_digits_determine(a: int, b: int, n: nat)
    requires
        0 <= a,
        0 <= b,
        forall|p: nat| p < n ==> ident::hex_at(a, p) == #[trigger] ident::hex_at(b, p),
    ensures
        a % vstd::arithmetic::power::pow(16, n) == b % vstd::arithmetic::power::pow(16, n),
    decreases n,
{
    use_powers(n);
    if n > 0 {
        let m = (n - 1) as nat;
        lemma_hex_digits_determine(a, b, m);
        use_powers(m);
        let p = vstd::arithmetic::power::pow(16, m);
        assert(ident::hex_at(a, m) == ident::hex_at(b, m));
        vstd::arithmetic::power::lemma_pow1(16);
        vstd::arithmetic::power::lemma_pow_adds(16, m, 1);
        assert(vstd::arithmetic::power::pow(16, n) == p * 16);
        vstd::arithmetic::div_mod::lemma_mod_breakdown(a, p, 16);
        vstd::arithmetic::div_mod::lemma_mod_breakdown(b, p, 16);
    } else {
        vstd::arithmetic::power::lemma_pow0(16);
    }
}

proof fn use_powers(n: nat)
    ensures
        vstd::arithmetic::power::pow(16, n) > 0,
{
    vstd::arithmetic::power::lemma_pow_positive(16, n);
}

proof fn lemma_square(n: nat, value: int)
    requires
        vstd::arithmetic::power::pow(16, n) == value,
    ensures
        vstd::arithmetic::power::pow(16, 2 * n) == value * value,
{
    vstd::arithmetic::power::lemma_pow_adds(16, n, n);
}

proof fn lemma_hex_char_injective(a: int, b: int)
    requires
        0 <= a < 16,
        0 <= b < 16,
        ident::hex_char(a) == ident::hex_char(b),
    ensures
        a == b,
{
}

/// Where the digit at `place` stands in the text of an identifier.
spec fn column(place: int) -> int {
    let n = 31 - place;
    if n < 8 {
        n
    } else if n < 12 {
        n + 1
    } else if n < 16 {
        n + 2
    } else if n < 20 {
        n + 3
    } else {
        n + 4
    }
}

proof fn lemma_id_text_at(id: u128, place: int)
    requires
        0 <= place < 32,
    ensures
        ident::id_text(id).len() == 36,
        ident::id_text(id)[column(place)] == ident::hex_char(
            ident::hex_at(id as int, place as nat),
        ),
{
}

/// Different jobs have different keys.
pub proof fn law_job_keys_differ(a: u128, b: u128)
    requires
        a != b,
    ensures
        spec_job_key(a) != spec_job_key(b),
{
    if spec_job_key(a) == spec_job_key(b) {
        lemma_same_tail("job:"@, ident::id_text(a), ident::id_text(b));
        assert forall|p: nat| p < 32 implies ident::hex_at(a as int, p) == #[trigger] ident::hex_at(
            b as int,
            p,
        ) by {
            lemma_id_text_at(a, p as int);
            lemma_id_text_at(b, p as int);
            use_powers(p);
            vstd::arithmetic::div_mod::lemma_div_pos_is_pos(
                a as int,
                vstd::arithmetic::power::pow(16, p),
            );
            lemma_hex_char_injective(
                ident::hex_at(a as int, p),
                ident::hex_at(b as int, p),
            );
        }
        lemma_hex_digits_determine(a as int, b as int, 32);
        assert(vstd::arithmetic::power::pow(16, 32) == 0x1_0000_0000_0000_0000_0000_0000_0000_0000int)
            by {
            vstd::arithmetic::power::lemma_pow1(16);
            lemma_square(1, 16);
            lemma_square(2, 0x100);
            lemma_square(4, 0x1_0000);
            lemma_square(8, 0x1_0000_0000);
            lemma_square(16, 0x1_0000_0000_0000_0000);
        }
        vstd::arithmetic::div_mod::lemma_small_mod(
            a as nat,
            0x1_0000_0000_0000_0000_0000_0000_0000_0000nat,
        );
        vstd::arithmetic::div_mod::lemma_small_mod(
            b as nat,
            0x1_0000_0000_0000_0000_0000_0000_0000_0000nat,
        );
    }
}

/// Encoding a text that is put together encodes its parts.
pub proof fn lemma_key_of_parts(a: Seq<char>, b: Seq<char>)
    ensures
        key(a + b) == key(a) + key(b),
    decreases a.len(),
{
    if a.len() == 0 {
        assert(a + b =~= b);
        assert(key(a) + key(b) =~= key(b));
    } else {
        lemma_key_of_parts(a.drop_first(), b);
        assert((a + b).drop_first() =~= a.drop_first() + b);
        assert(key(a + b) =~= key(a) + key(b));
    }
}

/// The digits of two numbers of the same length first differ at a place where
/// the smaller number has the smaller digit.
proof fn lemma_digits_ordered(a: nat, b: nat) -> (at: int)
    requires
        a < b,
        text::digits(a).len() == text::digits(b).len(),
    ensures
        0 <= at < text::digits(a).len(),
        forall|i: int| 0 <= i < at ==> text::digits(a)[i] == text::digits(b)[i],
        (text::digits(a)[at] as int) < (text::digits(b)[at] as int),
    decreases a,
{
    lemma_digits_nonempty(a / 10);
    lemma_digits_nonempty(b / 10);
    if a < 10 {
        assert(b < 10);
        lemma_digit_order(a as int, b as int);
        0
    } else {
        assert(text::digits(a) == text::digits(a / 10).push(text::digit_char((a % 10) as int)));
        assert(text::digits(b) == text::digits(b / 10).push(text::digit_char((b % 10) as int)));
        if a / 10 < b / 10 {
            let at = lemma_digits_ordered(a / 10, b / 10);
            at
        } else {
            assert(a / 10 == b / 10);
            lemma_digit_order((a % 10) as int, (b % 10) as int);
            text::digits(a / 10).len() as int
        }
    }
}

proof fn lemma_digits_nonempty(n: nat)
    ensures
        text::digits(n).len() > 0,
        vstd::utf8::is_ascii_chars(text::digits(n)),
    decreases n,
{
    if n >= 10 {
        lemma_digits_nonempty(n / 10);
        lemma_digit_ascii((n % 10) as int);
    } else {
        lemma_digit_ascii(n as int);
    }
}

proof fn lemma_digit_ascii(d: int)
    requires
        0 <= d < 10,
    ensures
        '\0' <= text::digit_char(d) <= '\u{7f}',
{
}

proof fn lemma_digit_order(a: int, b: int)
    requires
        0 <= a < b < 10,
    ensures
        (text::digit_char(a) as int) < (text::digit_char(b) as int),
{
}

/// Keys that go on with a time after the same ASCII head are in the order of
/// the times, where these have the same number of digits.
proof fn lemma_timed_keys_ordered(
    head: Seq<char>,
    a: nat,
    b: nat,
    rest_a: Seq<char>,
    rest_b: Seq<char>,
)
    requires
        vstd::utf8::is_ascii_chars(head),
        a < b,
        text::digits(a).len() == text::digits(b).len(),
    ensures
        text::bytes_lt(key(head + text::digits(a) + rest_a), key(head + text::digits(b) + rest_b)),
{
    let at = lemma_digits_ordered(a, b);
    let da = text::digits(a);
    let db = text::digits(b);
    lemma_digits_nonempty(a);
    lemma_digits_nonempty(b);
    lemma_key_of_parts(head + da, rest_a);
    lemma_key_of_parts(head + db, rest_b);
    vstd::utf8::is_ascii_chars_concat(head + da, head, da);
    vstd::utf8::is_ascii_chars_concat(head + db, head, db);
    vstd::utf8::is_ascii_chars_encode_utf8(head + da);
    vstd::utf8::is_ascii_chars_encode_utf8(head + db);
    let x = key(head + da + rest_a);
    let y = key(head + db + rest_b);
    let n = head.len() + at;
    assert forall|i: int| 0 <= i < n implies x[i] == y[i] by {
        assert(x[i] == key(head + da)[i]);
        assert(y[i] == key(head + db)[i]);
        assert((head + da)[i] == (head + db)[i]);
        assert(key(head + da)[i] == (head + da)[i] as u8);
        assert(key(head + db)[i] == (head + db)[i] as u8);
    }
    assert((head + da)[n] == da[at]);
    assert((head + db)[n] == db[at]);
    assert(x[n] == key(head + da)[n]);
    assert(y[n] == key(head + db)[n]);
    assert(key(head + da)[n] == (head + da)[n] as u8);
    assert(key(head + db)[n] == (head + db)[n] as u8);
    assert('\0' <= da[at] <= '\u{7f}');
    assert('\0' <= db[at] <= '\u{7f}');
    assert(text::first_below(x, y, n));
}

/// The index of the DIDs and that of the operations are in the order of time,
/// among times whose milliseconds have the same number of digits: a reader
/// that goes through an index backwards meets the latest first.
pub proof fn law_index_in_order_of_time(a: int, b: int, x: Seq<char>, y: Seq<char>)
    requires
        0 <= a < b,
        text::decimal(a).len() == text::decimal(b).len(),
    ensures
        text::bytes_lt(spec_did_index_key(a, x), spec_did_index_key(b, y)),
        text::bytes_lt(spec_operation_index_key(a, x), spec_operation_index_key(b, y)),
{
    reveal_strlit("did_idx:");
    reveal_strlit("op_idx:");
    let d = "did_idx:"@;
    let o = "op_idx:"@;
    let da = text::digits(a as nat);
    let db = text::digits(b as nat);
    assert(vstd::utf8::is_ascii_chars(d));
    assert(vstd::utf8::is_ascii_chars(o));
    lemma_timed_keys_ordered(d, a as nat, b as nat, ":"@ + x, ":"@ + y);
    lemma_timed_keys_ordered(o, a as nat, b as nat, ":"@ + x, ":"@ + y);
    assert(d + da + ":"@ + x =~= d + da + (":"@ + x));
    assert(d + db + ":"@ + y =~= d + db + (":"@ + y));
    assert(o + da + ":"@ + x =~= o + da + (":"@ + x));
    assert(o + db + ":"@ + y =~= o + db + (":"@ + y));
}

/// `whole` begins with `part`.
pub open spec fn begins_with<A>(whole: Seq<A>, part: Seq<A>) -> bool {
    &&& part.len() <= whole.len()
    &&& whole.take(part.len() as int) == part
}

/// A text whose encoding begins with that of another begins with the other.
proof fn lemma_key_prefix(whole: Seq<char>, part: Seq<char>)
    requires
        begins_with(key(whole), key(part)),
    ensures
        begins_with(whole, part),
    decreases part.len(),
{
    if part.len() == 0 {
        assert(whole.take(0) =~= part);
    } else {
        let w = key(whole);
        let p = key(part);
        vstd::utf8::encode_utf8_first_scalar(part);
        assert(p.len() > 0);
        if whole.len() == 0 {
            assert(w.len() == 0);
        }
        vstd::utf8::encode_utf8_first_scalar(whole);
        assert forall|i: int| 0 <= i < p.len() implies w[i] == p[i] by {
            assert(w.take(p.len() as int)[i] == w[i]);
        }
        assert(whole[0] as u32 == part[0] as u32);
        vstd::utf8::char_u32_cast(whole[0], whole[0] as u32);
        vstd::utf8::char_u32_cast(part[0], part[0] as u32);
        assert(whole[0] == part[0]);
        let n = vstd::utf8::encode_scalar(part[0] as u32).len() as int;
        let we = key(whole.drop_first());
        let pe = key(part.drop_first());
        assert(we =~= w.skip(n));
        assert(pe =~= p.skip(n));
        assert(we.take(pe.len() as int) =~= pe);
        lemma_key_prefix(whole.drop_first(), part.drop_first());
        assert(whole.take(part.len() as int) =~= part) by {
            assert forall|i: int| 0 <= i < part.len() implies whole[i] == part[i] by {
                if i > 0 {
                    assert(whole.drop_first().take(part.len() - 1)[i - 1] == whole[i]);
                    assert(part.drop_first()[i - 1] == part[i]);
                }
            }
        }
    }
}

/// Every operation of a DID is found under its prefix.
pub proof fn law_operations_found_by_did(did: Seq<char>, millis: int)
    ensures
        begins_with(spec_operation_by_did_key(did, millis), spec_did_operations_prefix(did)),
{
    let head = "did_ops:"@ + did + ":"@;
    lemma_key_of_parts(head, text::decimal(millis));
    assert((key(head) + key(text::decimal(millis))).take(key(head).len() as int) =~= key(head));
}

/// What is found under the prefix of a DID belongs to it, or to a DID that
/// goes on from it behind a colon.
pub proof fn law_prefix_finds_only_kin(did: Seq<char>, other: Seq<char>, millis: int)
    requires
        begins_with(spec_operation_by_did_key(other, millis), spec_did_operations_prefix(did)),
    ensures
        other == did || begins_with(other, did + ":"@),
{
    reveal_strlit(":");
    let head = "did_ops:"@;
    let whole = head + other + ":"@ + text::decimal(millis);
    let part = head + did + ":"@;
    lemma_key_prefix(whole, part);
    let h = head.len() as int;
    assert forall|i: int| 0 <= i < part.len() implies whole[i] == part[i] by {
        assert(whole.take(part.len() as int)[i] == whole[i]);
    }
    lemma_decimal_has_no_colon(millis);
    if did.len() < other.len() {
        assert(other.take((did + ":"@).len() as int) =~= did + ":"@) by {
            assert forall|i: int| 0 <= i < did.len() + 1 implies other[i] == (did + ":"@)[i] by {
                assert(whole[h + i] == other[i]);
                assert(part[h + i] == (did + ":"@)[i]);
            }
        }
    } else if did.len() == other.len() {
        assert(other =~= did) by {
            assert forall|i: int| 0 <= i < did.len() implies other[i] == did[i] by {
                assert(whole[h + i] == other[i]);
                assert(part[h + i] == did[i]);
            }
        }
    } else {
        let at = h + did.len();
        assert(part[at] == ':');
        let k = did.len() - other.len() - 1;
        assert(whole[at] == text::decimal(millis)[k]);
    }
}

/// An entry of the index of the DIDs, or of that of the operations, stands for
/// one record: entries for different ones have different keys.
pub proof fn law_index_names_one(a: int, x: Seq<char>, b: int, y: Seq<char>)
    ensures
        spec_did_index_key(a, x) == spec_did_index_key(b, y) ==> x == y,
        spec_operation_index_key(a, x) == spec_operation_index_key(b, y) ==> x == y,
{
    if spec_did_index_key(a, x) == spec_did_index_key(b, y) {
        lemma_index_names_one("did_idx:"@, a, x, b, y);
    }
    if spec_operation_index_key(a, x) == spec_operation_index_key(b, y) {
        lemma_index_names_one("op_idx:"@, a, x, b, y);
    }
}

proof fn lemma_index_names_one(head: Seq<char>, a: int, x: Seq<char>, b: int, y: Seq<char>)
    requires
        key(head + text::decimal(a) + ":"@ + x) == key(head + text::decimal(b) + ":"@ + y),
    ensures
        x == y,
{
    reveal_strlit(":");
    let p = head + text::decimal(a) + ":"@ + x;
    let q = head + text::decimal(b) + ":"@ + y;
    text::lemma_encode_injective(p, q);
    lemma_decimal_has_no_colon(a);
    lemma_decimal_has_no_colon(b);
    let h = head.len() as int;
    let m = text::decimal(a).len() as int;
    let n = text::decimal(b).len() as int;
    assert(p[h + m] == ':');
    assert(q[h + n] == ':');
    if m < n {
        assert(q[h + m] == text::decimal(b)[m]);
    } else if n < m {
        assert(p[h + n] == text::decimal(a)[n]);
    }
    assert(x =~= p.skip(h + m + 1));
    assert(y =~= q.skip(h + n + 1));
}

proof fn lemma_decimal_has_no_colon(i: int)
    ensures
        forall|k: int| 0 <= k < text::decimal(i).len() ==> text::decimal(i)[k] != ':',
{
    if i < 0 {
        lemma_digits_have_no_colon((-i) as nat);
        assert forall|k: int| 0 <= k < text::decimal(i).len() implies text::decimal(i)[k]
            != ':' by {
            if k > 0 {
                assert(text::decimal(i)[k] == text::digits((-i) as nat)[k - 1]);
            }
        }
    } else {
        lemma_digits_have_no_colon(i as nat);
    }
}

proof fn lemma_digits_have_no_colon(n: nat)
    ensures
        forall|k: int| 0 <= k < text::digits(n).len() ==> text::digits(n)[k] != ':',
    decreases n,
{
    if n >= 10 {
        lemma_digits_have_no_colon(n / 10);
        lemma_digit_is_no_colon((n % 10) as int);
        let head = text::digits(n / 10);
        assert(text::digits(n) == head.push(text::digit_char((n % 10) as int)));
        assert forall|k: int| 0 <= k < text::digits(n).len() implies text::digits(n)[k] != ':' by {
            if k < head.len() {
                assert(text::digits(n)[k] == head[k]);
            }
        }
    } else {
        lemma_digit_is_no_colon(n as int);
    }
}

proof fn lemma_digit_is_no_colon(d: int)
    requires
        0 <= d < 10,
    ensures
        text::digit_char(d) != ':',
{
}

} // verus!
