//! Canonical records: texts written one after the other, each behind its length
//! in bytes and a colon.

use vstd::prelude::*;
use vstd::string::*;
use vstd::utf8::*;
use crate::text::{bytes_determine_text, decimal, digit, encode_concat, push_decimal};

verus! {

/// The byte between a length and its field.
pub const COLON: u8 = 58;

/// One field behind its length in bytes.
pub open spec fn field_record(field: Seq<char>) -> Seq<char> {
    decimal(encode_utf8(field).len()) + ":"@ + field
}

/// The record of a list of fields.
pub open spec fn record(fields: Seq<Seq<char>>) -> Seq<char>
    decreases fields.len(),
{
    if fields.len() == 0 {
        Seq::empty()
    } else {
        field_record(fields[0]) + record(fields.drop_first())
    }
}

/// The first position of a byte.
pub open spec fn first_byte(b: Seq<u8>, c: u8) -> Option<int>
    decreases b.len(),
{
    if b.len() == 0 {
        None
    } else if b[0] == c {
        Some(0)
    } else {
        match first_byte(b.drop_first(), c) {
            Some(p) => Some(p + 1),
            None => None,
        }
    }
}

/// All bytes are decimal digits.
pub open spec fn all_digits(d: Seq<u8>) -> bool {
    forall|i: int| 0 <= i < d.len() ==> 48 <= #[trigger] d[i] <= 57
}

/// The number that decimal digits stand for.
pub open spec fn digits_value(d: Seq<u8>) -> nat
    decreases d.len(),
{
    if d.len() == 0 {
        0
    } else {
        digits_value(d.drop_last()) * 10 + (d.last() - 48) as nat
    }
}

/// The digits of a length: a leading plus sign is let through.
pub open spec fn unsigned(b: Seq<u8>) -> Seq<u8> {
    if b.len() > 0 && b[0] == 43 {
        b.skip(1)
    } else {
        b
    }
}

/// The length that bytes stand for, where they are digits and it fits.
pub open spec fn length_value(b: Seq<u8>) -> Option<nat> {
    let d = unsigned(b);
    if d.len() > 0 && all_digits(d) && digits_value(d) <= usize::MAX {
        Some(digits_value(d))
    } else {
        None
    }
}

/// The fields of a record, where it is one.
pub open spec fn parsed(b: Seq<u8>) -> Option<Seq<Seq<u8>>>
    decreases b.len(),
{
    if b.len() == 0 {
        Some(Seq::empty())
    } else {
        match first_byte(b, COLON) {
            None => None,
            Some(c) => match length_value(b.take(c)) {
                None => None,
                Some(n) => {
                    let rest = b.skip(c + 1);
                    if c < 0 || c >= b.len() || rest.len() < n || !is_char_boundary(
                        rest,
                        n as int,
                    ) {
                        None
                    } else {
                        match parsed(rest.skip(n as int)) {
                            None => None,
                            Some(more) => Some(seq![rest.take(n as int)] + more),
                        }
                    }
                },
            },
        }
    }
}

/// The bytes of each text.
pub open spec fn encoded(fields: Seq<Seq<char>>) -> Seq<Seq<u8>> {
    fields.map_values(|f: Seq<char>| encode_utf8(f))
}

proof fn lemma_first_byte(b: Seq<u8>, c: u8)
    ensures
        match first_byte(b, c) {
            Some(p) => 0 <= p < b.len() && b[p] == c && forall|i: int|
                0 <= i < p ==> #[trigger] b[i] != c,
            None => forall|i: int| 0 <= i < b.len() ==> #[trigger] b[i] != c,
        },
    decreases b.len(),
{
    if b.len() > 0 && b[0] != c {
        let r = b.drop_first();
        lemma_first_byte(r, c);
        match first_byte(r, c) {
            Some(p) => {
                assert forall|i: int| 0 <= i < p + 1 implies #[trigger] b[i] != c by {
                    if i > 0 {
                        assert(r[i - 1] != c);
                    }
                }
            },
            None => {
                assert forall|i: int| 0 <= i < b.len() implies #[trigger] b[i] != c by {
                    if i > 0 {
                        assert(r[i - 1] != c);
                    }
                }
            },
        }
    }
}

proof fn lemma_first_byte_is(b: Seq<u8>, c: u8, p: int)
    requires
        0 <= p < b.len(),
        b[p] == c,
        forall|i: int| 0 <= i < p ==> #[trigger] b[i] != c,
    ensures
        first_byte(b, c) == Some(p),
    decreases p,
{
    if p > 0 {
        assert(b[0] != c);
        let r = b.drop_first();
        assert forall|i: int| 0 <= i < p - 1 implies #[trigger] r[i] != c by {
            assert(b[i + 1] != c);
        }
        lemma_first_byte_is(r, c, p - 1);
    }
}

/// The decimal notation of a number reads back as the number.
proof fn lemma_decimal_bytes(n: nat)
    ensures
        is_ascii_chars(decimal(n)),
        encode_utf8(decimal(n)).len() == decimal(n).len(),
        decimal(n).len() > 0,
        all_digits(encode_utf8(decimal(n))),
        digits_value(encode_utf8(decimal(n))) == n,
    decreases n,
{
    let s = decimal(n);
    if n < 10 {
        assert(is_ascii_chars(s));
        is_ascii_chars_encode_utf8(s);
        let b = encode_utf8(s);
        assert(b.len() == 1);
        assert(b[0] == s[0] as u8);
        assert(b.drop_last() =~= Seq::<u8>::empty());
        assert(digits_value(b.drop_last()) == 0);
    } else {
        lemma_decimal_bytes(n / 10);
        let head = decimal(n / 10);
        assert(s == head.push(digit(n % 10)));
        assert(is_ascii_chars(s));
        is_ascii_chars_encode_utf8(s);
        is_ascii_chars_encode_utf8(head);
        let b = encode_utf8(s);
        assert(b.drop_last() =~= encode_utf8(head)) by {
            assert forall|i: int| 0 <= i < head.len() implies b.drop_last()[i] == #[trigger] encode_utf8(
                head,
            )[i] by {
                assert(s[i] == head[i]);
                assert(b[i] == s[i] as u8);
            }
        }
        assert(b.last() == s.last() as u8);
        assert forall|i: int| 0 <= i < b.len() implies 48 <= #[trigger] b[i] <= 57 by {
            if i < b.len() - 1 {
                assert(b[i] == encode_utf8(head)[i]);
            }
        }
    }
}

proof fn lemma_boundary_at_end(a: Seq<u8>, b: Seq<u8>)
    requires
        valid_utf8(a),
        valid_utf8(b),
    ensures
        valid_utf8(a + b),
        is_char_boundary(a + b, a.len() as int),
    decreases a.len(),
{
    valid_utf8_concat(a, b);
    if a.len() > 0 {
        let n = length_of_first_scalar(a);
        let rest = pop_first_scalar(a);
        assert(length_of_first_scalar(a + b) == n);
        assert(pop_first_scalar(a + b) =~= rest + b);
        lemma_boundary_at_end(rest, b);
    }
}

proof fn lemma_encoded_rest(fields: Seq<Seq<char>>)
    requires
        fields.len() > 0,
    ensures
        encoded(fields) == seq![encode_utf8(fields[0])] + encoded(fields.drop_first()),
{
    assert(encoded(fields) =~= seq![encode_utf8(fields[0])] + encoded(fields.drop_first()));
}

proof fn lemma_colon()
    ensures
        ":"@ == seq![':'],
        encode_utf8(":"@) == seq![COLON],
{
    reveal_strlit(":");
    assert(":"@ =~= seq![':']);
    assert(is_ascii_chars(":"@));
    is_ascii_chars_encode_utf8(":"@);
    assert(encode_utf8(":"@) =~= seq![COLON]);
}

/// Every field fits in memory.
pub open spec fn fields_fit(fields: Seq<Seq<char>>) -> bool {
    forall|i: int| 0 <= i < fields.len() ==> encode_utf8(#[trigger] fields[i]).len() <= usize::MAX
}

/// Parsing a record gives back exactly the fields it was written from.
pub proof fn record_parses_back(fields: Seq<Seq<char>>)
    requires
        fields_fit(fields),
    ensures
        parsed(encode_utf8(record(fields))) == Some(encoded(fields)),
    decreases fields.len(),
{
    if fields.len() == 0 {
        assert(encoded(fields) =~= Seq::<Seq<u8>>::empty());
    } else {
        let f = fields[0];
        let more = fields.drop_first();
        let fb = encode_utf8(f);
        let db = encode_utf8(decimal(fb.len()));
        let mb = encode_utf8(record(more));
        lemma_decimal_bytes(fb.len());
        lemma_colon();
        encode_concat(field_record(f), record(more));
        encode_concat(decimal(fb.len()) + ":"@, f);
        encode_concat(decimal(fb.len()), ":"@);
        let b = encode_utf8(record(fields));
        assert(b == ((db + seq![COLON]) + fb) + mb);
        let c = db.len() as int;
        assert(b[c] == COLON);
        assert forall|i: int| 0 <= i < c implies #[trigger] b[i] != COLON by {
            assert(b[i] == db[i]);
        }
        lemma_first_byte_is(b, COLON, c);
        assert(b.take(c) =~= db);
        assert(db[0] >= 48);
        assert(unsigned(db) == db);
        assert(fb.len() <= usize::MAX);
        let rest = b.skip(c + 1);
        assert(rest =~= fb + mb);
        encode_utf8_valid_utf8(f);
        encode_utf8_valid_utf8(record(more));
        lemma_boundary_at_end(fb, mb);
        assert(rest.take(fb.len() as int) =~= fb);
        assert(rest.skip(fb.len() as int) =~= mb);
        assert(fields_fit(more)) by {
            assert forall|i: int| 0 <= i < more.len() implies encode_utf8(#[trigger] more[i]).len()
                <= usize::MAX by {
                assert(encode_utf8(fields[i + 1]).len() <= usize::MAX);
            }
        }
        record_parses_back(more);
        lemma_encoded_rest(fields);
    }
}

/// Different lists of fields have different records.
pub proof fn records_do_not_collide(a: Seq<Seq<char>>, b: Seq<Seq<char>>)
    requires
        fields_fit(a),
        fields_fit(b),
        record(a) == record(b),
    ensures
        a == b,
{
    record_parses_back(a);
    record_parses_back(b);
    assert(encoded(a) == encoded(b));
    assert(encoded(a).len() == a.len());
    assert forall|i: int| 0 <= i < a.len() implies a[i] == b[i] by {
        assert(encoded(a)[i] == encode_utf8(a[i]));
        assert(encoded(b)[i] == encode_utf8(b[i]));
        bytes_determine_text(a[i], b[i]);
    }
    assert(a =~= b);
}

proof fn lemma_record_push(fields: Seq<Seq<char>>, f: Seq<char>)
    ensures
        record(fields.push(f)) == record(fields) + field_record(f),
    decreases fields.len(),
{
    let all = fields.push(f);
    if fields.len() == 0 {
        reveal_with_fuel(record, 2);
        assert(all.drop_first() =~= Seq::<Seq<char>>::empty());
        assert(record(all) =~= record(fields) + field_record(f));
    } else {
        lemma_record_push(fields.drop_first(), f);
        assert(all.drop_first() =~= fields.drop_first().push(f));
        assert(record(all) =~= record(fields) + field_record(f));
    }
}

/// The views of a list of texts.
pub open spec fn texts(v: Seq<String>) -> Seq<Seq<char>> {
    v.map_values(|s: String| s@)
}

/// Unambiguously encodes arbitrary fields.
pub fn canonical_record(fields: &Vec<String>) -> (r: String)
    ensures
        r@ == record(texts(fields@)),
{
    let mut output = String::new();
    let mut i: usize = 0;
    let ghost all = texts(fields@);
    assert(all.take(0) =~= Seq::<Seq<char>>::empty());
    while i < fields.len()
        invariant
            i <= fields.len(),
            all == texts(fields@),
            output@ == record(all.take(i as int)),
        decreases fields.len() - i,
    {
        let field = fields[i].as_str();
        let ghost before = output@;
        push_decimal(&mut output, field.as_bytes().len() as u64);
        output.append(":");
        output.append(field);
        proof {
            assert(all.take(i as int + 1) =~= all.take(i as int).push(all[i as int]));
            lemma_record_push(all.take(i as int), all[i as int]);
            assert(output@ =~= before + field_record(field@));
        }
        i += 1;
    }
    assert(all.take(all.len() as int) =~= all);
    output
}

proof fn lemma_digits_monotone(d: Seq<u8>, k: int)
    requires
        0 <= k <= d.len(),
        all_digits(d),
    ensures
        digits_value(d.take(k)) <= digits_value(d),
    decreases d.len() - k,
{
    if k < d.len() {
        lemma_digits_monotone(d, k + 1);
        assert(d.take(k + 1).drop_last() =~= d.take(k));
    } else {
        assert(d.take(k) =~= d);
    }
}

/// Reads the length at the start of the bytes, up to the position `end`.
fn parse_length(b: &[u8], end: usize) -> (r: Option<usize>)
    requires
        end <= b@.len(),
    ensures
        match r {
            Some(n) => length_value(b@.take(end as int)) == Some(n as nat),
            None => length_value(b@.take(end as int)) is None,
        },
{
    let ghost all = b@.take(end as int);
    let mut i: usize = 0;
    if end > 0 && b[0] == 43 {
        i = 1;
    }
    let start = i;
    let ghost d = unsigned(all);
    assert(d =~= b@.subrange(start as int, end as int));
    if i >= end {
        return None;
    }
    let mut total: usize = 0;
    assert(d.take(0) =~= Seq::<u8>::empty());
    while i < end
        invariant
            start <= i <= end,
            end <= b@.len(),
            start < end,
            all == b@.take(end as int),
            d == unsigned(all),
            d == b@.subrange(start as int, end as int),
            all_digits(d.take(i - start)),
            total == digits_value(d.take(i - start)),
        decreases end - i,
    {
        let c = b[i];
        let ghost more = d.take(i - start + 1);
        assert(d[i - start] == c);
        assert(more.drop_last() =~= d.take(i - start));
        assert(more.last() == c);
        if c < 48 || c > 57 {
            return None;
        }
        assert(all_digits(more)) by {
            assert forall|k: int| 0 <= k < more.len() implies 48 <= #[trigger] more[k] <= 57 by {
                if k < i - start {
                    assert(d.take(i - start)[k] == more[k]);
                }
            }
        }
        let shifted = total.checked_mul(10);
        let next = match shifted {
            Some(x) => x.checked_add((c - 48) as usize),
            None => None,
        };
        match next {
            Some(x) => {
                total = x;
            },
            None => {
                proof {
                    if all_digits(d) {
                        lemma_digits_monotone(d, i - start + 1);
                    }
                    assert(digits_value(more) > usize::MAX);
                }
                return None;
            },
        }
        i += 1;
    }
    assert(d.take(d.len() as int) =~= d);
    Some(total)
}

/// The position behind an ASCII byte at a character boundary is a boundary.
proof fn lemma_boundary_behind_ascii(b: Seq<u8>, c: int)
    requires
        valid_utf8(b),
        0 <= c < b.len(),
        b[c] < 128,
    ensures
        is_char_boundary(b, c),
        is_char_boundary(b, c + 1),
{
    is_char_boundary_iff_not_is_continuation_byte(b, c);
    let head = b.subrange(0, c);
    let tail = b.subrange(c, b.len() as int);
    valid_utf8_split(b, c);
    assert(tail[0] == b[c]);
    let one = take_first_scalar(tail);
    let rest = pop_first_scalar(tail);
    assert(one =~= seq![b[c]]);
    assert(valid_utf8(rest));
    assert(valid_utf8(one)) by {
        reveal_with_fuel(valid_utf8, 2);
    }
    valid_utf8_concat(head, one);
    lemma_boundary_at_end(head + one, rest);
    assert((head + one) + rest =~= b);
}

/// The fields already read, before those that are still to come.
pub open spec fn continued(done: Seq<Seq<u8>>, more: Option<Seq<Seq<u8>>>) -> Option<
    Seq<Seq<u8>>,
> {
    match more {
        Some(m) => Some(done + m),
        None => None,
    }
}

/// Reads a record; `None` where the text is not one.
pub fn parse_canonical_record(value: &str) -> (r: Option<Vec<String>>)
    ensures
        match r {
            Some(fields) => parsed(encode_utf8(value@)) == Some(encoded(texts(fields@))),
            None => parsed(encode_utf8(value@)) is None,
        },
{
    let mut fields: Vec<String> = Vec::new();
    let mut rest: &str = value;
    let ghost all = encode_utf8(value@);
    proof {
        assert(encoded(texts(fields@)) =~= Seq::<Seq<u8>>::empty());
        match parsed(all) {
            Some(m) => {
                assert(Seq::<Seq<u8>>::empty() + m =~= m);
            },
            None => {},
        }
    }
    while !rest.is_empty()
        invariant
            all == encode_utf8(value@),
            parsed(all) == continued(encoded(texts(fields@)), parsed(encode_utf8(rest@))),
        decreases encode_utf8(rest@).len(),
    {
        let bytes = rest.as_bytes();
        let ghost b = bytes@;
        let ghost done = encoded(texts(fields@));
        proof {
            encode_utf8_valid_utf8(rest@);
            lemma_first_byte(b, COLON);
            if b.len() == 0 {
                bytes_determine_text(rest@, Seq::empty());
            }
        }
        let mut colon: usize = 0;
        while colon < bytes.len() && bytes[colon] != COLON
            invariant
                colon <= bytes@.len(),
                forall|i: int| 0 <= i < colon ==> #[trigger] bytes@[i] != COLON,
            decreases bytes.len() - colon,
        {
            colon += 1;
        }
        if colon >= bytes.len() {
            assert(first_byte(b, COLON) is None);
            return None;
        }
        proof {
            lemma_first_byte_is(b, COLON, colon as int);
        }
        let length = match parse_length(bytes, colon) {
            Some(n) => n,
            None => {
                return None;
            },
        };
        proof {
            lemma_boundary_behind_ascii(b, colon as int);
        }
        let (_head, tail) = rest.split_at(colon + 1);
        assert(encode_utf8(tail@) =~= b.skip(colon as int + 1));
        if tail.as_bytes().len() < length {
            return None;
        }
        if !tail.is_char_boundary(length) {
            return None;
        }
        let (field, remaining) = tail.split_at(length);
        let ghost tb = encode_utf8(tail@);
        proof {
            assert(encode_utf8(field@) =~= tb.take(length as int));
            assert(encode_utf8(remaining@) =~= tb.skip(length as int));
        }
        let owned = field.to_owned();
        let ghost before = fields@;
        fields.push(owned);
        proof {
            assert(encoded(texts(fields@)) =~= done.push(tb.take(length as int)));
            match parsed(encode_utf8(remaining@)) {
                Some(more) => {
                    assert(done + (seq![tb.take(length as int)] + more) =~= done.push(
                        tb.take(length as int),
                    ) + more);
                },
                None => {},
            }
        }
        rest = remaining;
    }
    proof {
        assert(rest@ =~= Seq::<char>::empty());
        assert(encode_utf8(rest@).len() == 0);
        assert(encoded(texts(fields@)) + Seq::<Seq<u8>>::empty() =~= encoded(texts(fields@)));
    }
    Some(fields)
}

} // verus!
