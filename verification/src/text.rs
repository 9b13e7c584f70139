//! Texts: equality, order, decimal notation and search.

use vstd::prelude::*;
use vstd::string::*;
use vstd::utf8::*;
use crate::ordering::{key_lt, key_order_is_total};
use crate::ordering::{key_order_is_transitive};

verus! {

/// `String::push` appends one character to the end of the text.
pub assume_specification[ String::push ](s: &mut String, c: char)
    ensures
        final(s)@ == old(s)@.push(c),
;

/// The text of bytes that may be none.
pub uninterp spec fn lossy_text(b: Seq<u8>) -> Seq<char>;

/// `String::from_utf8_lossy` gives the text of the bytes, with a replacement character
/// for what is no text: it depends on the bytes alone, and bytes that are a text give
/// that text.
#[verifier::external_body]
pub(crate) fn lossy(b: &[u8]) -> (r: String)
    ensures
        r@ == lossy_text(b@),
        valid_utf8(b@) ==> r@ == decode_utf8(b@),
{
    String::from_utf8_lossy(b).into_owned()
}

/// Texts with the same bytes are the same text.
pub proof fn bytes_determine_text(a: Seq<char>, b: Seq<char>)
    ensures
        encode_utf8(a) == encode_utf8(b) ==> a == b,
{
    encode_utf8_decode_utf8(a);
    encode_utf8_decode_utf8(b);
}

/// Encoding distributes over concatenation.
pub proof fn encode_concat(a: Seq<char>, b: Seq<char>)
    ensures
        encode_utf8(a + b) == encode_utf8(a) + encode_utf8(b),
    decreases a.len(),
{
    if a.len() == 0 {
        assert(a + b =~= b);
        assert(encode_utf8(a) + encode_utf8(b) =~= encode_utf8(b));
    } else {
        encode_concat(a.drop_first(), b);
        assert((a + b).drop_first() =~= a.drop_first() + b);
        assert(encode_scalar(a[0] as u32) + (encode_utf8(a.drop_first()) + encode_utf8(b))
            =~= encode_utf8(a) + encode_utf8(b));
    }
}

/// Tells whether two byte strings are equal.
pub fn same_bytes(a: &[u8], b: &[u8]) -> (r: bool)
    ensures
        r == (a@ == b@),
{
    if a.len() != b.len() {
        return false;
    }
    let mut i: usize = 0;
    while i < a.len()
        invariant
            i <= a.len(),
            a@.len() == b@.len(),
            forall|j: int| 0 <= j < i ==> a@[j] == b@[j],
        decreases a.len() - i,
    {
        if a[i] != b[i] {
            return false;
        }
        i += 1;
    }
    assert(a@ =~= b@);
    true
}

/// Tells whether two texts are equal.
pub fn same_text(a: &str, b: &str) -> (r: bool)
    ensures
        r == (a@ == b@),
{
    proof {
        bytes_determine_text(a@, b@);
    }
    same_bytes(a.as_bytes(), b.as_bytes())
}

/// The key of a text: its bytes, each raised by one, and a closing zero.
pub open spec fn text_key(s: Seq<char>) -> Seq<u64> {
    bytes_key(encode_utf8(s))
}

/// The key of a byte string: its bytes, each raised by one, and a closing zero.
pub open spec fn bytes_key(b: Seq<u8>) -> Seq<u64> {
    Seq::new(b.len(), |i: int| (b[i] as int + 1) as u64).push(0)
}

/// `a` comes before `b` in the byte order of texts.
pub open spec fn text_lt(a: Seq<char>, b: Seq<char>) -> bool {
    key_lt(text_key(a), text_key(b))
}

proof fn lemma_bytes_key_first(a: Seq<u8>, b: Seq<u8>, x: Seq<u64>, y: Seq<u64>)
    ensures
        a != b ==> key_lt(bytes_key(a) + x, bytes_key(b) + y) == key_lt(bytes_key(a), bytes_key(b)),
        a == b ==> key_lt(bytes_key(a) + x, bytes_key(b) + y) == key_lt(x, y),
        bytes_key(a) == bytes_key(b) ==> a == b,
    decreases a.len() + b.len(),
{
    let ka = bytes_key(a) + x;
    let kb = bytes_key(b) + y;
    if a.len() == 0 && b.len() == 0 {
        assert(a =~= b);
        assert(ka.drop_first() =~= x);
        assert(kb.drop_first() =~= y);
    } else if a.len() == 0 {
        assert(ka[0] == 0);
        assert(kb[0] == b[0] as u64 + 1);
        assert(bytes_key(a)[0] == 0);
        assert(bytes_key(b)[0] == b[0] as u64 + 1);
    } else if b.len() == 0 {
        assert(kb[0] == 0);
        assert(ka[0] == a[0] as u64 + 1);
        assert(bytes_key(b)[0] == 0);
        assert(bytes_key(a)[0] == a[0] as u64 + 1);
    } else {
        let a1 = a.drop_first();
        let b1 = b.drop_first();
        assert(ka.drop_first() =~= bytes_key(a1) + x);
        assert(kb.drop_first() =~= bytes_key(b1) + y);
        assert(bytes_key(a).drop_first() =~= bytes_key(a1));
        assert(bytes_key(b).drop_first() =~= bytes_key(b1));
        assert(ka[0] == a[0] as u64 + 1);
        assert(kb[0] == b[0] as u64 + 1);
        assert(bytes_key(a)[0] == ka[0]);
        assert(bytes_key(b)[0] == kb[0]);
        lemma_bytes_key_first(a1, b1, x, y);
        assert(a =~= seq![a[0]] + a1);
        assert(b =~= seq![b[0]] + b1);
    }
}

/// A text at the head of a key decides the order of the keys unless it is equal
/// in both; the fields after it decide only then.
pub proof fn text_field_compares_first(
    a: Seq<char>,
    b: Seq<char>,
    x: Seq<u64>,
    y: Seq<u64>,
)
    ensures
        a != b ==> key_lt(text_key(a) + x, text_key(b) + y) == text_lt(a, b),
        a == b ==> key_lt(text_key(a) + x, text_key(b) + y) == key_lt(x, y),
        text_key(a) == text_key(b) ==> a == b,
{
    lemma_bytes_key_first(encode_utf8(a), encode_utf8(b), x, y);
    bytes_determine_text(a, b);
}

/// Any two texts compare as less, equal or greater: exactly one of the three.
pub proof fn text_order_is_total(a: Seq<char>, b: Seq<char>)
    ensures
        text_lt(a, b) || a == b || text_lt(b, a),
        !(text_lt(a, b) && text_lt(b, a)),
        a == b ==> !text_lt(a, b),
{
    key_order_is_total(text_key(a), text_key(b));
    text_field_compares_first(a, b, Seq::empty(), Seq::empty());
}

/// The order of texts is transitive.
pub proof fn text_order_is_transitive(a: Seq<char>, b: Seq<char>, c: Seq<char>)
    requires
        text_lt(a, b),
        text_lt(b, c),
    ensures
        text_lt(a, c),
{
    key_order_is_transitive(text_key(a), text_key(b), text_key(c));
}

/// Appends the key of a byte string.
pub fn push_bytes_key(out: &mut Vec<u64>, b: &[u8])
    ensures
        final(out)@ == old(out)@ + bytes_key(b@),
{
    let ghost start = out@;
    let mut i: usize = 0;
    while i < b.len()
        invariant
            i <= b.len(),
            out@ == start + Seq::new(i as nat, |j: int| (b@[j] as int + 1) as u64),
        decreases b.len() - i,
    {
        out.push(b[i] as u64 + 1);
        i += 1;
        assert(out@ =~= start + Seq::new(i as nat, |j: int| (b@[j] as int + 1) as u64));
    }
    out.push(0);
    assert(out@ =~= start + bytes_key(b@));
}

/// Appends the key of a text.
pub fn push_text_key(out: &mut Vec<u64>, s: &str)
    ensures
        final(out)@ == old(out)@ + text_key(s@),
{
    push_bytes_key(out, s.as_bytes());
}

proof fn lemma_text_lt_at(a: Seq<u8>, b: Seq<u8>, i: int)
    requires
        0 <= i <= a.len(),
        i <= b.len(),
        forall|j: int| 0 <= j < i ==> a[j] == b[j],
    ensures
        i == b.len() ==> !key_lt(bytes_key(a), bytes_key(b)),
        i == a.len() && i < b.len() ==> key_lt(bytes_key(a), bytes_key(b)),
        i < a.len() && i < b.len() && a[i] != b[i] ==> key_lt(bytes_key(a), bytes_key(b)) == (a[i]
            < b[i]),
    decreases i,
{
    reveal_with_fuel(key_lt, 3);
    let ka = bytes_key(a);
    let kb = bytes_key(b);
    if i > 0 {
        assert(ka[0] == kb[0]);
        assert(ka.drop_first() =~= bytes_key(a.drop_first()));
        assert(kb.drop_first() =~= bytes_key(b.drop_first()));
        lemma_text_lt_at(a.drop_first(), b.drop_first(), i - 1);
    } else {
        if b.len() == 0 {
            assert(kb[0] == 0);
            assert(kb.drop_first() =~= Seq::<u64>::empty());
        } else {
            assert(kb[0] == b[0] as u64 + 1);
        }
        if a.len() == 0 {
            assert(ka[0] == 0);
        } else {
            assert(ka[0] == a[0] as u64 + 1);
        }
    }
}

/// Tells whether the text `a` comes strictly before the text `b`.
pub fn text_less(a: &str, b: &str) -> (r: bool)
    ensures
        r == text_lt(a@, b@),
{
    let x = a.as_bytes();
    let y = b.as_bytes();
    let mut i: usize = 0;
    while i < x.len() && i < y.len()
        invariant
            i <= x.len(),
            i <= y.len(),
            x@ == encode_utf8(a@),
            y@ == encode_utf8(b@),
            forall|j: int| 0 <= j < i ==> x@[j] == y@[j],
        decreases x.len() - i,
    {
        if x[i] != y[i] {
            proof {
                lemma_text_lt_at(x@, y@, i as int);
            }
            return x[i] < y[i];
        }
        i += 1;
    }
    proof {
        lemma_text_lt_at(x@, y@, i as int);
    }
    i < y.len()
}

/// The character of one decimal digit.
pub open spec fn digit(d: nat) -> char {
    ('0' as u32 + d) as char
}

/// The decimal notation of a number.
pub open spec fn decimal(n: nat) -> Seq<char>
    decreases n,
{
    if n < 10 {
        seq![digit(n)]
    } else {
        decimal(n / 10).push(digit(n % 10))
    }
}

fn digit_char(d: u64) -> (c: char)
    requires
        d < 10,
    ensures
        c == digit(d as nat),
{
    match d {
        0 => '0',
        1 => '1',
        2 => '2',
        3 => '3',
        4 => '4',
        5 => '5',
        6 => '6',
        7 => '7',
        8 => '8',
        _ => '9',
    }
}

/// Appends the decimal notation of a number.
pub fn push_decimal(out: &mut String, n: u64)
    ensures
        final(out)@ == old(out)@ + decimal(n as nat),
    decreases n,
{
    let ghost start = out@;
    if n >= 10 {
        push_decimal(out, n / 10);
    }
    out.push(digit_char(n % 10));
    assert(out@ =~= start + decimal(n as nat));
}

/// The decimal notation of a number.
pub fn decimal_text(n: u64) -> (r: String)
    ensures
        r@ == decimal(n as nat),
{
    let mut out = String::new();
    push_decimal(&mut out, n);
    assert(out@ =~= decimal(n as nat));
    out
}

/// `needle` occurs in `hay` at position `at`.
pub open spec fn occurs_at<A>(hay: Seq<A>, needle: Seq<A>, at: int) -> bool {
    &&& 0 <= at
    &&& at + needle.len() <= hay.len()
    &&& hay.subrange(at, at + needle.len()) == needle
}

/// `needle` occurs somewhere in `hay`.
pub open spec fn occurs_in<A>(hay: Seq<A>, needle: Seq<A>) -> bool {
    exists|at: int| occurs_at(hay, needle, at)
}

/// The characters of a text.
pub fn chars_of(s: &str) -> (r: Vec<char>)
    ensures
        r@ == s@,
{
    let mut r: Vec<char> = Vec::new();
    for c in iter: s.chars()
        invariant
            iter.seq() == s@,
            r@ == iter.seq().take(iter.index() as int),
    {
        r.push(c);
        assert(r@ =~= iter.seq().take(iter.index() as int + 1));
    }
    assert(r@ =~= s@);
    r
}

fn matches_at(hay: &Vec<char>, needle: &Vec<char>, at: usize) -> (r: bool)
    requires
        at + needle@.len() <= hay@.len(),
    ensures
        r == occurs_at(hay@, needle@, at as int),
{
    let mut i: usize = 0;
    while i < needle.len()
        invariant
            i <= needle.len(),
            at + needle.len() <= hay.len(),
            forall|j: int| 0 <= j < i ==> hay@[at + j] == needle@[j],
        decreases needle.len() - i,
    {
        if hay[at + i] != needle[i] {
            assert(hay@.subrange(at as int, at + needle@.len())[i as int] != needle@[i as int]);
            return false;
        }
        i += 1;
    }
    assert(hay@.subrange(at as int, at + needle@.len()) =~= needle@);
    true
}

/// Tells whether `needle` occurs in `hay`.
pub fn contains_chars(hay: &Vec<char>, needle: &Vec<char>) -> (r: bool)
    ensures
        r == occurs_in(hay@, needle@),
{
    let mut at: usize = 0;
    while needle.len() <= hay.len() - at
        invariant
            at <= hay.len(),
            forall|p: int| 0 <= p < at ==> !occurs_at(hay@, needle@, p),
        decreases hay.len() - at,
    {
        if matches_at(hay, needle, at) {
            return true;
        }
        if at == hay.len() {
            return false;
        }
        at += 1;
    }
    false
}

/// Tells whether the text `needle` occurs in the text `hay`.
pub fn contains_text(hay: &str, needle: &str) -> (r: bool)
    ensures
        r == occurs_in(hay@, needle@),
{
    let h = chars_of(hay);
    let n = chars_of(needle);
    contains_chars(&h, &n)
}

/// `s` begins with `prefix`.
pub open spec fn begins_with<A>(s: Seq<A>, prefix: Seq<A>) -> bool {
    prefix.len() <= s.len() && s.take(prefix.len() as int) == prefix
}

/// Tells whether `s` begins with `prefix` from the position `at` on.
pub fn bytes_begin_with(s: &[u8], at: usize, prefix: &[u8]) -> (r: bool)
    requires
        at <= s@.len(),
    ensures
        r == begins_with(s@.skip(at as int), prefix@),
{
    if prefix.len() > s.len() - at {
        return false;
    }
    let mut i: usize = 0;
    while i < prefix.len()
        invariant
            i <= prefix.len(),
            at + prefix.len() <= s.len(),
            forall|j: int| 0 <= j < i ==> s@[at + j] == prefix@[j],
        decreases prefix.len() - i,
    {
        if s[at + i] != prefix[i] {
            assert(s@.skip(at as int).take(prefix@.len() as int)[i as int] != prefix@[i as int]);
            return false;
        }
        i += 1;
    }
    assert(s@.skip(at as int).take(prefix@.len() as int) =~= prefix@);
    true
}

} // verus!
