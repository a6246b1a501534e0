//! Text: comparison, decimal numbers, lines, and what the standard library
//! says about letter case and UTF-8.

use vstd::prelude::*;
use vstd::string::*;
use vstd::utf8::*;

verus! {

/// `a` and `b` agree before position `n`, and at `n` either `a` has ended or
/// holds the smaller byte.
pub open spec fn first_below(a: Seq<u8>, b: Seq<u8>, n: int) -> bool {
    &&& 0 <= n <= a.len()
    &&& n < b.len()
    &&& forall|i: int| 0 <= i < n ==> a[i] == b[i]
    &&& n == a.len() || a[n] < b[n]
}

/// The lexicographic order of byte strings.
pub open spec fn bytes_lt(a: Seq<u8>, b: Seq<u8>) -> bool {
    exists|n: int| first_below(a, b, n)
}

/// The order of strings: that of their UTF-8 bytes.
pub open spec fn text_lt(a: Seq<char>, b: Seq<char>) -> bool {
    bytes_lt(encode_utf8(a), encode_utf8(b))
}

/// Two different texts have different UTF-8 encodings.
pub proof fn lemma_encode_injective(a: Seq<char>, b: Seq<char>)
    requires
        encode_utf8(a) == encode_utf8(b),
    ensures
        a == b,
{
    encode_utf8_decode_utf8(a);
    encode_utf8_decode_utf8(b);
}

/// The order of byte strings is strict: nothing precedes itself, and no two
/// precede each other.
pub proof fn lemma_bytes_lt_asymmetric(a: Seq<u8>, b: Seq<u8>)
    requires
        bytes_lt(a, b),
    ensures
        !bytes_lt(b, a),
        a != b,
{
    let n = choose|n: int| first_below(a, b, n);
    if bytes_lt(b, a) {
        let m = choose|m: int| first_below(b, a, m);
        if n < m {
            assert(a[n] == b[n]);
        } else if m < n {
            assert(a[m] == b[m]);
        }
    }
}

/// Of two different byte strings one precedes the other.
pub proof fn lemma_bytes_lt_total(a: Seq<u8>, b: Seq<u8>)
    ensures
        a == b || bytes_lt(a, b) || bytes_lt(b, a),
    decreases a.len(),
{
    if a.len() == 0 {
        if b.len() == 0 {
            assert(a =~= b);
        } else {
            assert(first_below(a, b, 0));
        }
    } else if b.len() == 0 {
        assert(first_below(b, a, 0));
    } else if a[0] < b[0] {
        assert(first_below(a, b, 0));
    } else if b[0] < a[0] {
        assert(first_below(b, a, 0));
    } else {
        let x = a.drop_first();
        let y = b.drop_first();
        lemma_bytes_lt_total(x, y);
        if x == y {
            assert(a =~= seq![a[0]] + x);
            assert(b =~= seq![b[0]] + y);
        } else if bytes_lt(x, y) {
            let n = choose|n: int| first_below(x, y, n);
            assert forall|i: int| 0 <= i < n + 1 implies a[i] == b[i] by {
                if i > 0 {
                    assert(x[i - 1] == y[i - 1]);
                }
            }
            assert(first_below(a, b, n + 1));
        } else {
            let n = choose|n: int| first_below(y, x, n);
            assert forall|i: int| 0 <= i < n + 1 implies b[i] == a[i] by {
                if i > 0 {
                    assert(y[i - 1] == x[i - 1]);
                }
            }
            assert(first_below(b, a, n + 1));
        }
    }
}

/// The order of byte strings is transitive.
pub proof fn lemma_bytes_lt_transitive(a: Seq<u8>, b: Seq<u8>, c: Seq<u8>)
    requires
        bytes_lt(a, b),
        bytes_lt(b, c),
    ensures
        bytes_lt(a, c),
{
    let n = choose|n: int| first_below(a, b, n);
    let m = choose|m: int| first_below(b, c, m);
    if n <= m {
        assert(first_below(a, c, n));
    } else {
        assert(first_below(a, c, m));
    }
}

/// Whether `a` comes before `b`.
pub fn str_lt(a: &str, b: &str) -> (r: bool)
    ensures
        r == text_lt(a@, b@),
{
    let x = a.as_bytes();
    let y = b.as_bytes();
    let mut i: usize = 0;
    while i < x.len() && i < y.len() && x[i] == y[i]
        invariant
            i <= x@.len(),
            i <= y@.len(),
            forall|j: int| 0 <= j < i ==> x@[j] == y@[j],
        decreases x@.len() - i,
    {
        i = i + 1;
    }
    if i >= y.len() {
        proof {
            if i == x@.len() {
                assert(x@ =~= y@);
                if bytes_lt(x@, y@) {
                    lemma_bytes_lt_asymmetric(x@, y@);
                }
            } else {
                assert(first_below(y@, x@, i as int));
                if bytes_lt(x@, y@) {
                    lemma_bytes_lt_asymmetric(x@, y@);
                }
            }
        }
        false
    } else if i >= x.len() {
        assert(first_below(x@, y@, i as int));
        true
    } else if x[i] < y[i] {
        assert(first_below(x@, y@, i as int));
        true
    } else {
        proof {
            assert(first_below(y@, x@, i as int));
            if bytes_lt(x@, y@) {
                lemma_bytes_lt_asymmetric(x@, y@);
            }
        }
        false
    }
}

/// Byte strings are in the order of the first byte in which they differ; one that
/// ends where the other goes on comes first; and nothing comes before itself.
pub proof fn law_order_of_bytes(
    head: Seq<u8>,
    x: u8,
    y: u8,
    a: Seq<u8>,
    b: Seq<u8>,
)
    ensures
        x < y ==> bytes_lt(head.push(x) + a, head.push(y) + b),
        x < y ==> !bytes_lt(head.push(y) + b, head.push(x) + a),
        a.len() > 0 ==> bytes_lt(head, head + a),
        a.len() > 0 ==> !bytes_lt(head + a, head),
        !bytes_lt(a, a),
{
    if x < y {
        let p = head.push(x) + a;
        let q = head.push(y) + b;
        assert(first_below(p, q, head.len() as int));
        lemma_bytes_lt_asymmetric(p, q);
    }
    if a.len() > 0 {
        assert(first_below(head, head + a, head.len() as int));
        lemma_bytes_lt_asymmetric(head, head + a);
    }
    if bytes_lt(a, a) {
        lemma_bytes_lt_asymmetric(a, a);
    }
}

/// Whether two strings hold the same text.
pub fn str_eq(a: &str, b: &str) -> (r: bool)
    ensures
        r == (a@ == b@),
{
    let x = a.as_bytes();
    let y = b.as_bytes();
    if x.len() != y.len() {
        return false;
    }
    let mut i: usize = 0;
    while i < x.len()
        invariant
            x@.len() == y@.len(),
            x@ == encode_utf8(a@),
            y@ == encode_utf8(b@),
            i <= x@.len(),
            forall|j: int| 0 <= j < i ==> x@[j] == y@[j],
        decreases x@.len() - i,
    {
        if x[i] != y[i] {
            return false;
        }
        i = i + 1;
    }
    proof {
        assert(x@ =~= y@);
        lemma_encode_injective(a@, b@);
    }
    true
}

/// The characters of a string.
pub fn chars_of(text: &str) -> (r: Vec<char>)
    ensures
        r@ == text@,
{
    let mut out: Vec<char> = Vec::new();
    for c in it: text.chars()
        invariant
            it.seq() == text@,
            out@ == text@.take(it.index()),
    {
        assert(text@.take(it.index() + 1) =~= text@.take(it.index()).push(c));
        out.push(c);
    }
    assert(text@.take(text@.len() as int) =~= text@);
    out
}

/// `needle` stands in `hay` at position `at`.
pub open spec fn stands_at(hay: Seq<char>, needle: Seq<char>, at: int) -> bool {
    &&& 0 <= at <= hay.len() - needle.len()
    &&& hay.subrange(at, at + needle.len()) == needle
}

/// `needle` stands somewhere in `hay`.
pub open spec fn has_part(hay: Seq<char>, needle: Seq<char>) -> bool {
    exists|at: int| stands_at(hay, needle, at)
}

/// A text has every part of which it is made up.
pub proof fn law_part_stands_between(head: Seq<char>, part: Seq<char>, tail: Seq<char>)
    ensures
        has_part(head + part + tail, part),
{
    let whole = head + part + tail;
    let at = head.len() as int;
    assert(whole.subrange(at, at + part.len()) =~= part);
    assert(stands_at(whole, part, at));
}

/// Whatever part a text has, it is made up of it and of what stands before and
/// behind it.
pub proof fn law_parts_make_up_the_text(hay: Seq<char>, needle: Seq<char>)
    ensures
        has_part(hay, needle) <==> exists|head: Seq<char>, tail: Seq<char>|
            hay == #[trigger] (head + needle + tail),
{
    if has_part(hay, needle) {
        let at = choose|at: int| stands_at(hay, needle, at);
        let head = hay.take(at);
        let tail = hay.skip(at + needle.len());
        assert forall|i: int| 0 <= i < needle.len() implies hay[at + i] == needle[i] by {
            assert(hay.subrange(at, at + needle.len())[i] == hay[at + i]);
        }
        assert(hay =~= head + needle + tail);
    }
    if exists|head: Seq<char>, tail: Seq<char>| hay == #[trigger] (head + needle + tail) {
        let (head, tail) = choose|head: Seq<char>, tail: Seq<char>|
            hay == #[trigger] (head + needle + tail);
        law_part_stands_between(head, needle, tail);
    }
}

/// Whether `needle` stands somewhere in `hay`.
pub fn str_contains(hay: &str, needle: &str) -> (r: bool)
    ensures
        r == has_part(hay@, needle@),
{
    let h = chars_of(hay);
    let n = chars_of(needle);
    if n.len() > h.len() {
        return false;
    }
    let total: usize = h.len();
    let last: usize = total - n.len();
    let mut at: usize = 0;
    loop
        invariant
            h@ == hay@,
            n@ == needle@,
            n@.len() <= h@.len(),
            total == h@.len(),
            last == total - n@.len(),
            at <= last,
            forall|k: int| 0 <= k < at ==> !stands_at(hay@, needle@, k),
        decreases last - at,
    {
        let mut i: usize = 0;
        while i < n.len() && h[at + i] == n[i]
            invariant
                h@ == hay@,
                n@ == needle@,
                n@.len() <= h@.len(),
                total == h@.len(),
                last == total - n@.len(),
                at <= last,
                i <= n@.len(),
                forall|j: int| 0 <= j < i ==> h@[at + j] == n@[j],
            decreases n@.len() - i,
        {
            i = i + 1;
        }
        if i == n.len() {
            assert(hay@.subrange(at as int, at + needle@.len()) =~= needle@);
            assert(stands_at(hay@, needle@, at as int));
            return true;
        }
        assert(!stands_at(hay@, needle@, at as int)) by {
            if stands_at(hay@, needle@, at as int) {
                assert(hay@.subrange(at as int, at + needle@.len())[i as int] == h@[at + i]);
            }
        }
        if at == last {
            assert(!has_part(hay@, needle@));
            return false;
        }
        at = at + 1;
    }
}

/// The lower case form of a text, as the Unicode tables of the standard
/// library give it.
pub uninterp spec fn lower_case(text: Seq<char>) -> Seq<char>;

/// `str::to_lowercase`: the result is a function of the text alone, and that of
/// an empty text is empty.
#[verifier::external_body]
pub(crate) fn to_lower(text: &str) -> (r: String)
    ensures
        r@ == lower_case(text@),
        text@.len() == 0 ==> r@.len() == 0,
{
    text.to_lowercase()
}

/// The characters with the White_Space property of Unicode.
pub open spec fn white_space(c: char) -> bool {
    ||| '\u{9}' <= c <= '\u{d}'
    ||| c == '\u{20}'
    ||| c == '\u{85}'
    ||| c == '\u{a0}'
    ||| c == '\u{1680}'
    ||| '\u{2000}' <= c <= '\u{200a}'
    ||| '\u{2028}' <= c <= '\u{2029}'
    ||| c == '\u{202f}'
    ||| c == '\u{205f}'
    ||| c == '\u{3000}'
}

/// Whether a character is white space.
fn is_white(c: char) -> (r: bool)
    ensures
        r == white_space(c),
{
    ('\u{9}' <= c && c <= '\u{d}') || c == '\u{20}' || c == '\u{85}' || c == '\u{a0}' || c
        == '\u{1680}' || ('\u{2000}' <= c && c <= '\u{200a}') || ('\u{2028}' <= c && c
        <= '\u{2029}') || c == '\u{202f}' || c == '\u{205f}' || c == '\u{3000}'
}

/// White space is the control characters from the tabulator to the carriage
/// return, the space and the no-break space, the next line, and the spaces and
/// separators of Unicode: twenty-five characters in all.
pub proof fn law_white_space(c: char)
    ensures
        white_space(c) <==> seq![
            0x9int,
            0xa,
            0xb,
            0xc,
            0xd,
            0x20,
            0x85,
            0xa0,
            0x1680,
            0x2000,
            0x2001,
            0x2002,
            0x2003,
            0x2004,
            0x2005,
            0x2006,
            0x2007,
            0x2008,
            0x2009,
            0x200a,
            0x2028,
            0x2029,
            0x202f,
            0x205f,
            0x3000,
        ].contains(c as int),
{
    let all = seq![
        0x9int,
        0xa,
        0xb,
        0xc,
        0xd,
        0x20,
        0x85,
        0xa0,
        0x1680,
        0x2000,
        0x2001,
        0x2002,
        0x2003,
        0x2004,
        0x2005,
        0x2006,
        0x2007,
        0x2008,
        0x2009,
        0x200a,
        0x2028,
        0x2029,
        0x202f,
        0x205f,
        0x3000,
    ];
    assert(all[0] == 0x9 && all[1] == 0xa && all[2] == 0xb && all[3] == 0xc && all[4] == 0xd);
    assert(all[5] == 0x20 && all[6] == 0x85 && all[7] == 0xa0 && all[8] == 0x1680);
    assert(all[9] == 0x2000 && all[10] == 0x2001 && all[11] == 0x2002 && all[12] == 0x2003);
    assert(all[13] == 0x2004 && all[14] == 0x2005 && all[15] == 0x2006 && all[16] == 0x2007);
    assert(all[17] == 0x2008 && all[18] == 0x2009 && all[19] == 0x200a && all[20] == 0x2028);
    assert(all[21] == 0x2029 && all[22] == 0x202f && all[23] == 0x205f && all[24] == 0x3000);
}

/// `String::from_utf8`: a byte string that is valid UTF-8 becomes the text
/// that it encodes, any other is refused.
#[verifier::external_body]
pub(crate) fn text_from_utf8(bytes: Vec<u8>) -> (r: Option<String>)
    ensures
        r is Some <==> valid_utf8(bytes@),
        r matches Some(text) ==> encode_utf8(text@) == bytes@,
{
    String::from_utf8(bytes).ok()
}

/// Nothing but white space.
pub open spec fn blank(text: Seq<char>) -> bool {
    forall|i: int| 0 <= i < text.len() ==> white_space(#[trigger] text[i])
}

/// The text without the white space at its end.
pub open spec fn trim_end(text: Seq<char>) -> Seq<char>
    decreases text.len(),
{
    if text.len() == 0 || !white_space(text.last()) {
        text
    } else {
        trim_end(text.drop_last())
    }
}

/// The text without the white space at its start.
pub open spec fn trim_start(text: Seq<char>) -> Seq<char>
    decreases text.len(),
{
    if text.len() == 0 || !white_space(text[0]) {
        text
    } else {
        trim_start(text.drop_first())
    }
}

/// The text without the white space around it.
pub open spec fn trimmed(text: Seq<char>) -> Seq<char> {
    trim_end(trim_start(text))
}

/// The text without the white space around it.
pub fn trim(text: &str) -> (r: String)
    ensures
        r@ == trimmed(text@),
{
    let chars = chars_of(text);
    let mut from: usize = 0;
    assert(text@.skip(0) =~= text@);
    while from < chars.len() && is_white(chars[from])
        invariant
            chars@ == text@,
            from <= chars@.len(),
            trim_start(text@) == trim_start(text@.skip(from as int)),
        decreases chars@.len() - from,
    {
        assert(text@.skip(from as int).drop_first() =~= text@.skip(from + 1));
        from = from + 1;
    }
    assert(trim_start(text@) == text@.skip(from as int));
    let mut to: usize = chars.len();
    assert(text@.subrange(from as int, to as int) =~= text@.skip(from as int));
    while to > from && is_white(chars[to - 1])
        invariant
            chars@ == text@,
            from <= to <= chars@.len(),
            trimmed(text@) == trim_end(text@.subrange(from as int, to as int)),
        decreases to,
    {
        assert(text@.subrange(from as int, to as int).drop_last() =~= text@.subrange(
            from as int,
            to - 1,
        ));
        to = to - 1;
    }
    text.substring_char(from, to).to_owned()
}

/// A text is what is left of it after trimming, with nothing but white space
/// before and behind; and what is left neither begins nor ends with any.
pub proof fn law_trimmed(text: Seq<char>)
    ensures
        exists|head: Seq<char>, tail: Seq<char>|
            #![trigger blank(head), blank(tail)]
            blank(head) && blank(tail) && text == head + trimmed(text) + tail,
        trimmed(text).len() > 0 ==> !white_space(trimmed(text)[0]) && !white_space(
            trimmed(text).last(),
        ),
{
    let front = trim_start(text);
    let head = lemma_trim_start(text);
    let tail = lemma_trim_end(front);
    assert(text =~= head + trimmed(text) + tail);
    if trimmed(text).len() > 0 {
        assert(front[0] == trimmed(text)[0]);
    }
    assert(blank(head) && blank(tail));
}

proof fn lemma_trim_start(text: Seq<char>) -> (head: Seq<char>)
    ensures
        blank(head),
        text == head + trim_start(text),
        trim_start(text).len() > 0 ==> !white_space(trim_start(text)[0]),
    decreases text.len(),
{
    if text.len() == 0 || !white_space(text[0]) {
        assert(text =~= Seq::<char>::empty() + trim_start(text));
        Seq::empty()
    } else {
        let rest = lemma_trim_start(text.drop_first());
        let head = seq![text[0]] + rest;
        assert forall|i: int| 0 <= i < head.len() implies white_space(#[trigger] head[i]) by {
            if i > 0 {
                assert(head[i] == rest[i - 1]);
            }
        }
        assert(text =~= head + trim_start(text)) by {
            assert(text =~= seq![text[0]] + text.drop_first());
        }
        head
    }
}

proof fn lemma_trim_end(text: Seq<char>) -> (tail: Seq<char>)
    ensures
        blank(tail),
        text == trim_end(text) + tail,
        trim_end(text).len() > 0 ==> !white_space(trim_end(text).last()),
    decreases text.len(),
{
    if text.len() == 0 || !white_space(text.last()) {
        assert(text =~= trim_end(text) + Seq::<char>::empty());
        Seq::empty()
    } else {
        let rest = lemma_trim_end(text.drop_last());
        let tail = rest.push(text.last());
        assert forall|i: int| 0 <= i < tail.len() implies white_space(#[trigger] tail[i]) by {
            if i < rest.len() {
                assert(tail[i] == rest[i]);
            }
        }
        assert(text =~= trim_end(text) + tail) by {
            assert(text =~= text.drop_last().push(text.last()));
        }
        tail
    }
}

/// A text is blank exactly when nothing is left of it after trimming.
pub proof fn lemma_blank_trims_to_nothing(text: Seq<char>)
    ensures
        blank(text) <==> trimmed(text).len() == 0,
    decreases text.len(),
{
    if text.len() == 0 {
    } else if !white_space(text[0]) {
        lemma_trim_end_keeps(text);
    } else {
        let rest = text.drop_first();
        lemma_blank_trims_to_nothing(rest);
        if blank(rest) {
            assert forall|i: int| 0 <= i < text.len() implies white_space(#[trigger] text[i]) by {
                if i > 0 {
                    assert(rest[i - 1] == text[i]);
                }
            }
        }
        if blank(text) {
            assert forall|i: int| 0 <= i < rest.len() implies white_space(#[trigger] rest[i]) by {
                assert(rest[i] == text[i + 1]);
            }
        }
    }
}

/// Trimming the end of a text keeps a first character that is not white space.
proof fn lemma_trim_end_keeps(text: Seq<char>)
    requires
        text.len() > 0,
        !white_space(text[0]),
    ensures
        trim_end(text).len() > 0,
        !blank(text),
    decreases text.len(),
{
    if text.len() > 1 && white_space(text.last()) {
        assert(text.drop_last()[0] == text[0]);
        lemma_trim_end_keeps(text.drop_last());
    }
}

/// The decimal digit for `d`.
pub open spec fn digit_char(d: int) -> char {
    seq!['0', '1', '2', '3', '4', '5', '6', '7', '8', '9'][d]
}

/// The decimal digits of `n`, without leading zeros.
pub open spec fn digits(n: nat) -> Seq<char>
    decreases n,
{
    if n < 10 {
        seq![digit_char(n as int)]
    } else {
        digits(n / 10).push(digit_char((n % 10) as int))
    }
}

/// `i` in decimal, with a minus sign where it is negative.
pub open spec fn decimal(i: int) -> Seq<char> {
    if i < 0 {
        seq!['-'] + digits((-i) as nat)
    } else {
        digits(i as nat)
    }
}

/// The digit `d` as a text of one character.
fn digit_text(d: u64) -> (r: &'static str)
    requires
        d < 10,
    ensures
        r@ == seq![digit_char(d as int)],
{
    proof {
        reveal_strlit("0");
        reveal_strlit("1");
        reveal_strlit("2");
        reveal_strlit("3");
        reveal_strlit("4");
        reveal_strlit("5");
        reveal_strlit("6");
        reveal_strlit("7");
        reveal_strlit("8");
        reveal_strlit("9");
    }
    let r: &'static str = match d {
        0 => "0",
        1 => "1",
        2 => "2",
        3 => "3",
        4 => "4",
        5 => "5",
        6 => "6",
        7 => "7",
        8 => "8",
        _ => "9",
    };
    assert(r@ =~= seq![digit_char(d as int)]);
    r
}

/// Appends `n` in decimal.
pub fn push_decimal(out: &mut String, n: u64)
    ensures
        final(out)@ == old(out)@ + digits(n as nat),
    decreases n,
{
    if n >= 10 {
        push_decimal(out, n / 10);
        out.append(digit_text(n % 10));
        assert(out@ =~= old(out)@ + digits(n as nat));
    } else {
        out.append(digit_text(n));
    }
}

/// Appends `i` in decimal.
pub fn push_signed(out: &mut String, i: i64)
    ensures
        final(out)@ == old(out)@ + decimal(i as int),
{
    if i < 0 {
        proof {
            reveal_strlit("-");
        }
        out.append("-");
        let magnitude: u64 = (-(i + 1)) as u64 + 1;
        push_decimal(out, magnitude);
        assert("-"@ =~= seq!['-']);
        assert(out@ =~= old(out)@ + decimal(i as int));
    } else {
        push_decimal(out, i as u64);
    }
}

/// Where the first line of `text` ends: its first newline, or its end.
pub open spec fn line_end(text: Seq<char>) -> int
    decreases text.len(),
{
    if text.len() == 0 || text[0] == '\n' {
        0
    } else {
        1 + line_end(text.drop_first())
    }
}

/// A line that a newline ended, without the carriage return before it.
pub open spec fn without_return(line: Seq<char>) -> Seq<char> {
    if line.len() > 0 && line.last() == '\r' {
        line.drop_last()
    } else {
        line
    }
}

/// The lines of a text. A line ends at a newline, or at a carriage return and
/// a newline; the last one may go without.
pub open spec fn lines(text: Seq<char>) -> Seq<Seq<char>>
    decreases text.len(),
{
    if text.len() == 0 {
        seq![]
    } else if line_end(text) >= text.len() {
        seq![text]
    } else {
        proof {
            lemma_line_end_bounds(text);
        }
        seq![without_return(text.take(line_end(text)))] + lines(text.skip(line_end(text) + 1))
    }
}

/// A line ends within its text.
pub proof fn lemma_line_end_bounds(text: Seq<char>)
    ensures
        0 <= line_end(text) <= text.len(),
    decreases text.len(),
{
    if text.len() > 0 && text[0] != '\n' {
        lemma_line_end_bounds(text.drop_first());
    }
}

/// The lines of a text that hold more than white space.
pub open spec fn filled_lines(text: Seq<char>) -> Seq<Seq<char>> {
    lines(text).filter(|line: Seq<char>| !blank(line))
}

/// The texts that a vector of strings holds.
pub open spec fn views(texts: Seq<String>) -> Seq<Seq<char>> {
    texts.map_values(|t: String| t@)
}

proof fn lemma_line_end(text: Seq<char>, at: int)
    requires
        0 <= at <= text.len(),
        forall|i: int| 0 <= i < at ==> text[i] != '\n',
        at == text.len() || text[at] == '\n',
    ensures
        line_end(text) == at,
    decreases text.len(),
{
    if at > 0 {
        let rest = text.drop_first();
        assert forall|i: int| 0 <= i < at - 1 implies rest[i] != '\n' by {
            assert(rest[i] == text[i + 1]);
        }
        lemma_line_end(rest, at - 1);
    }
}

/// A text is read line by line: up to the first newline, without it and without a
/// carriage return before it, and then what follows. What no newline ends is a
/// line too, unless it is empty, and keeps all its characters.
pub proof fn law_lines_one_by_one(line: Seq<char>, rest: Seq<char>)
    requires
        forall|i: int| 0 <= i < line.len() ==> line[i] != '\n',
    ensures
        lines(Seq::<char>::empty()) == Seq::<Seq<char>>::empty(),
        line.len() > 0 ==> lines(line) == seq![line],
        line.len() == 0 || line.last() != '\r' ==> lines(line.push('\n') + rest) == seq![line]
            + lines(rest),
        lines(line.push('\r').push('\n') + rest) == seq![line] + lines(rest),
{
    if line.len() > 0 {
        lemma_line_end(line, line.len() as int);
    }
    let n = line.len() as int;
    let plain = line.push('\n') + rest;
    lemma_line_end(plain, n);
    assert(plain.take(n) =~= line);
    assert(plain.skip(n + 1) =~= rest);
    let returned = line.push('\r').push('\n') + rest;
    lemma_line_end(returned, n + 1);
    assert(returned.take(n + 1) =~= line.push('\r'));
    assert(line.push('\r').drop_last() =~= line);
    assert(returned.skip(n + 2) =~= rest);
}

/// Of the lines of a text those are kept that hold more than white space, in
/// their order.
pub proof fn law_filled_lines_one_by_one(line: Seq<char>, rest: Seq<char>)
    requires
        forall|i: int| 0 <= i < line.len() ==> line[i] != '\n',
    ensures
        line.len() == 0 || line.last() != '\r' ==> filled_lines(line.push('\n') + rest) == if blank(
            line,
        ) {
            filled_lines(rest)
        } else {
            seq![line] + filled_lines(rest)
        },
        filled_lines(line.push('\r').push('\n') + rest) == if blank(line) {
            filled_lines(rest)
        } else {
            seq![line] + filled_lines(rest)
        },
        blank(line) ==> filled_lines(line) == Seq::<Seq<char>>::empty(),
        !blank(line) ==> filled_lines(line) == seq![line],
{
    law_lines_one_by_one(line, rest);
    let filled = |l: Seq<char>| !blank(l);
    lemma_filter_first(line, lines(rest), filled);
    reveal(Seq::filter);
    if line.len() > 0 {
        assert(seq![line].drop_last() =~= Seq::<Seq<char>>::empty());
        assert(seq![line].drop_last().filter(filled) =~= Seq::<Seq<char>>::empty());
        assert(seq![line].last() == line);
        if !blank(line) {
            assert(Seq::<Seq<char>>::empty().push(line) =~= seq![line]);
        }
    }
}

proof fn lemma_filter_first(line: Seq<char>, rest: Seq<Seq<char>>, keep: spec_fn(Seq<char>) -> bool)
    ensures
        (seq![line] + rest).filter(keep) == if keep(line) {
            seq![line] + rest.filter(keep)
        } else {
            rest.filter(keep)
        },
    decreases rest.len(),
{
    reveal(Seq::filter);
    let all = seq![line] + rest;
    if rest.len() == 0 {
        assert(all.drop_last() =~= Seq::<Seq<char>>::empty());
        assert(all.drop_last().filter(keep) =~= Seq::<Seq<char>>::empty());
        assert(all.filter(keep) =~= if keep(line) {
            seq![line] + rest.filter(keep)
        } else {
            rest.filter(keep)
        });
    } else {
        lemma_filter_first(line, rest.drop_last(), keep);
        assert(all.drop_last() =~= seq![line] + rest.drop_last());
        assert(all.filter(keep) =~= if keep(line) {
            seq![line] + rest.filter(keep)
        } else {
            rest.filter(keep)
        });
    }
}

/// Whether the characters from `from` up to `to` are all white space.
fn is_blank(chars: &Vec<char>, from: usize, to: usize) -> (r: bool)
    requires
        from <= to <= chars@.len(),
    ensures
        r == blank(chars@.subrange(from as int, to as int)),
{
    let ghost part = chars@.subrange(from as int, to as int);
    let mut i: usize = from;
    while i < to
        invariant
            from <= i <= to <= chars@.len(),
            part == chars@.subrange(from as int, to as int),
            forall|j: int| 0 <= j < i - from ==> white_space(#[trigger] part[j]),
        decreases to - i,
    {
        assert(part[i - from] == chars@[i as int]);
        if !is_white(chars[i]) {
            return false;
        }
        i = i + 1;
    }
    true
}

/// The lines of a text that hold more than white space, in order.
pub fn nonblank_lines(text: &str) -> (r: Vec<String>)
    ensures
        views(r@) == filled_lines(text@),
{
    let chars = chars_of(text);
    let mut out: Vec<String> = Vec::new();
    let mut start: usize = 0;
    let mut i: usize = 0;
    let ghost filled = |line: Seq<char>| !blank(line);
    let ghost mut before: Seq<Seq<char>> = seq![];
    proof {
        reveal(Seq::filter);
        assert(text@.skip(0) =~= text@);
        assert(before + lines(text@) =~= lines(text@));
        assert(views(out@) =~= before.filter(filled));
    }
    while i < chars.len()
        invariant
            chars@ == text@,
            start <= i <= chars@.len(),
            forall|j: int| start <= j < i ==> chars@[j] != '\n',
            filled == (|line: Seq<char>| !blank(line)),
            lines(text@) == before + lines(text@.skip(start as int)),
            views(out@) == before.filter(filled),
        decreases chars@.len() - i,
    {
        if chars[i] == '\n' {
            let ghost rest = text@.skip(start as int);
            let end: usize = if i > start && chars[i - 1] == '\r' {
                i - 1
            } else {
                i
            };
            let ghost line = text@.subrange(start as int, end as int);
            proof {
                lemma_line_end(rest, i - start);
                assert(rest.take(i - start) =~= text@.subrange(start as int, i as int));
                assert(without_return(rest.take(i - start)) =~= line);
                assert(rest.skip(i - start + 1) =~= text@.skip(i + 1));
                assert(lines(rest) == seq![line] + lines(text@.skip(i + 1)));
                assert(before + (seq![line] + lines(text@.skip(i + 1))) =~= before.push(line)
                    + lines(text@.skip(i + 1)));
                reveal(Seq::filter);
                assert(before.push(line).drop_last() =~= before);
            }
            if !is_blank(&chars, start, end) {
                let ghost had = out@;
                out.push(text.substring_char(start, end).to_owned());
                assert(views(out@) =~= views(had).push(line));
            }
            proof {
                before = before.push(line);
            }
            start = i + 1;
        }
        i = i + 1;
    }
    if start < chars.len() {
        let ghost rest = text@.skip(start as int);
        proof {
            lemma_line_end(rest, rest.len() as int);
            assert(text@.subrange(start as int, chars@.len() as int) =~= rest);
            assert(before + seq![rest] =~= before.push(rest));
            reveal(Seq::filter);
            assert(before.push(rest).drop_last() =~= before);
        }
        if !is_blank(&chars, start, chars.len()) {
            let ghost had = out@;
            out.push(text.substring_char(start, chars.len()).to_owned());
            assert(views(out@) =~= views(had).push(rest));
        }
    } else {
        proof {
            assert(text@.skip(start as int) =~= seq![]);
            assert(lines(text@.skip(start as int)) =~= seq![]) by {
                assert(line_end(text@.skip(start as int)) == 0);
            }
            assert(before + seq![] =~= before);
        }
    }
    out
}

/// The value of a decimal digit, if `c` is one.
pub open spec fn digit_value(c: char) -> Option<int> {
    if '0' <= c <= '9' {
        Some(c as int - '0' as int)
    } else {
        None
    }
}

/// The number that a text of decimal digits writes, if it is one.
pub open spec fn digits_value(text: Seq<char>) -> Option<int>
    decreases text.len(),
{
    if text.len() == 0 {
        Some(0)
    } else {
        match (digits_value(text.drop_last()), digit_value(text.last())) {
            (Some(head), Some(d)) => Some(head * 10 + d),
            _ => None,
        }
    }
}

/// What `text` says as an unsigned number: one or more decimal digits, with a
/// plus sign before them or not.
pub open spec fn unsigned_value(text: Seq<char>) -> Option<int> {
    let body = if text.len() > 0 && text[0] == '+' {
        text.drop_first()
    } else {
        text
    };
    if body.len() == 0 {
        None
    } else {
        digits_value(body)
    }
}

/// One more digit behind a number makes it ten times as large and adds the digit;
/// what is no digit makes it none. A plus sign changes nothing, two of them do,
/// and without a digit there is no number.
pub proof fn law_number_digit_by_digit(text: Seq<char>, c: char)
    ensures
        digits_value(Seq::<char>::empty()) == Some(0int),
        digits_value(text) is Some && 48 <= c as int <= 57 ==> digits_value(text.push(c)) == Some(
            10 * digits_value(text)->0 + (c as int - 48),
        ),
        digits_value(text) is None || !(48 <= c as int <= 57) ==> digits_value(text.push(c))
            is None,
        text.len() > 0 && text[0] != '+' ==> unsigned_value(text) == digits_value(text)
            && unsigned_value(seq!['+'] + text) == digits_value(text),
        unsigned_value(Seq::<char>::empty()) is None,
        unsigned_value(seq!['+']) is None,
        unsigned_value(seq!['+', '+'] + text) is None,
{
    assert(text.push(c).drop_last() =~= text);
    assert((seq!['+'] + text).drop_first() =~= text);
    let twice = seq!['+', '+'] + text;
    assert(twice.drop_first() =~= seq!['+'] + text);
    lemma_digits_value_prefix(seq!['+'] + text, 1);
    let plus = (seq!['+'] + text).take(1);
    assert(plus =~= seq!['+']);
    assert(digit_value(plus.last()) is None);
}

/// What is written of a number is read as that number, and begins with a zero
/// only where it is zero; a negative one is written as its opposite behind a
/// minus sign.
pub proof fn law_decimal_reads_back(n: nat)
    ensures
        unsigned_value(decimal(n as int)) == Some(n as int),
        n > 0 ==> decimal(n as int)[0] != '0',
        n == 0 ==> decimal(n as int) == seq!['0'],
        n > 0 ==> decimal(-n) == seq!['-'] + decimal(n as int),
        decimal(n as int).len() > 0,
{
    lemma_digits_read_back(n);
}

proof fn lemma_digits_read_back(n: nat)
    ensures
        digits(n).len() > 0,
        digits_value(digits(n)) == Some(n as int),
        '0' <= digits(n)[0] <= '9',
        n > 0 ==> digits(n)[0] != '0',
    decreases n,
{
    let d = digit_char((n % 10) as int);
    assert(digit_value(d) == Some((n % 10) as int));
    if n < 10 {
        assert(digits(n).drop_last() =~= Seq::<char>::empty());
        assert(digits_value(digits(n).drop_last()) == Some(0int));
        assert(digits(n).last() == d);
    } else {
        lemma_digits_read_back(n / 10);
        assert(digits(n).drop_last() =~= digits(n / 10));
        assert(digits(n).last() == d);
        assert(digits(n)[0] == digits(n / 10)[0]);
    }
}

proof fn lemma_digits_value_prefix(text: Seq<char>, n: int)
    requires
        0 <= n <= text.len(),
    ensures
        digits_value(text.take(n)) is None ==> digits_value(text) is None,
        digits_value(text) is Some ==> digits_value(text.take(n)) is Some && 0 <= digits_value(
            text.take(n),
        )->0 <= digits_value(text)->0,
    decreases text.len() - n,
{
    lemma_digits_value_nonnegative(text);
    if n < text.len() {
        lemma_digits_value_prefix(text, n + 1);
        assert(text.take(n + 1).drop_last() =~= text.take(n));
        lemma_digits_value_nonnegative(text.take(n));
    } else {
        assert(text.take(n) =~= text);
    }
}

proof fn lemma_digits_value_nonnegative(text: Seq<char>)
    ensures
        digits_value(text) matches Some(v) ==> v >= 0,
    decreases text.len(),
{
    if text.len() > 0 {
        lemma_digits_value_nonnegative(text.drop_last());
    }
}

/// Reads an unsigned number; `None` where the text is none, or where the
/// number does not fit.
pub fn parse_unsigned(text: &str) -> (r: Option<u64>)
    ensures
        match unsigned_value(text@) {
            Some(v) => if v <= u64::MAX {
                r matches Some(n) && n == v
            } else {
                r is None
            },
            None => r is None,
        },
{
    let chars = chars_of(text);
    let from: usize = if chars.len() > 0 && chars[0] == '+' {
        1
    } else {
        0
    };
    if from == chars.len() {
        return None;
    }
    let ghost body = text@.skip(from as int);
    assert(body =~= if text@.len() > 0 && text@[0] == '+' {
        text@.drop_first()
    } else {
        text@
    });
    let mut value: u64 = 0;
    let mut i: usize = from;
    assert(body.take(0) =~= seq![]);
    while i < chars.len()
        invariant
            chars@ == text@,
            from <= i <= chars@.len(),
            body == text@.skip(from as int),
            body.len() > 0,
            unsigned_value(text@) == digits_value(body),
            digits_value(body.take(i - from)) == Some(value as int),
        decreases chars@.len() - i,
    {
        let c = chars[i];
        proof {
            assert(body.take(i + 1 - from).drop_last() =~= body.take(i - from));
            assert(body.take(i + 1 - from).last() == c);
            lemma_digits_value_prefix(body, i + 1 - from);
        }
        if c < '0' || c > '9' {
            return None;
        }
        let d: u64 = c as u64 - '0' as u64;
        if value > (u64::MAX - d) / 10 {
            return None;
        }
        value = value * 10 + d;
        i = i + 1;
    }
    assert(body.take(chars@.len() - from) =~= body);
    Some(value)
}

} // verus!
