//! Laws of diffs: which lines a hunk header tells, which file they belong to, and which
//! definitions they touch.

use vstd::prelude::*;
use vstd::string::*;
use vstd::utf8::*;
use crate::commands::diff::{
    after_line, after_lines, byte_range, change_views, comma_place, diff_changes, digits_value,
    first_place, has_body, header_range, is_space, lemma_header_range, lemma_starts_bounded,
    line_end, line_text, lines_from, named_file, names_file, next_place, number_of_text, overlaps,
    second_word, side_range, starts_of, with_current, FileChange, FileLineRanges,
};
use crate::commands::diff_impact::{
    is_diff_impact_answer, is_touched, seeds_are_distinct, seeds_of, source_views,
    touched_definitions, with_new, DiffImpactCommandRequest,
};
use crate::commands::impact::{answers_impact, ImpactBounds};
use crate::commands::shared::{normalized, QueryCommandContext};
use crate::deadline::Cancellation;
use crate::graph::{ByteSpan, IdView, SymbolView};
use crate::laws::terms::lemma_filter_is_exact;
use crate::project::path::rejection;
use crate::query::index::{definitions_covered, symbol_covered, GraphRead, SymbolScopeView};
use crate::result::{ImpactOutput, OutputEnvelope};
use crate::text::{begins_with, decimal, digit, occurs_at};

verus! {

proof fn lemma_next_place(s: Seq<char>, at: int, p: int, spaces: bool)
    requires
        0 <= at <= p <= s.len(),
        forall|i: int| at <= i < p ==> is_space(#[trigger] s[i]) != spaces,
        p < s.len() ==> is_space(s[p]) == spaces,
    ensures
        next_place(s, at, spaces) == p,
    decreases p - at,
{
    if at < p {
        assert(is_space(s[at]) != spaces);
        lemma_next_place(s, at + 1, p, spaces);
    }
}

/// The text has neither spaces nor anything else that separates words.
pub open spec fn is_one_word(s: Seq<char>) -> bool {
    forall|i: int| 0 <= i < s.len() ==> !is_space(#[trigger] s[i])
}

/// The header of a hunk: its old side, its new side, and what follows the closing marker.
pub open spec fn hunk_header(old_side: Seq<char>, new_side: Seq<char>, t: Seq<char>) -> Seq<char> {
    "@@ -"@ + old_side + " +"@ + new_side + " @@"@ + t
}

/// What a hunk header tells depends on its new side alone: neither the old side nor what
/// follows the closing marker matters.
pub proof fn only_the_new_side_matters(old_side: Seq<char>, new_side: Seq<char>, t: Seq<char>)
    requires
        is_one_word(old_side),
        is_one_word(new_side),
    ensures
        header_range(hunk_header(old_side, new_side, t)) == side_range(new_side),
{
    reveal_strlit("@@ -");
    reveal_strlit("@@ ");
    reveal_strlit(" +");
    reveal_strlit(" @@");
    let line = hunk_header(old_side, new_side, t);
    let m = old_side.len() as int;
    let n = new_side.len() as int;
    assert(line.take(3) =~= "@@ "@);
    let rest = line.skip(3);
    let body = rest.take(m + n + 3);
    let at = m + n + 3;
    assert(rest[0] == '-');
    assert forall|i: int| 0 <= i < m implies #[trigger] body[1 + i] == old_side[i] by {}
    assert(body[1 + m] == ' ' && body[2 + m] == '+');
    assert forall|i: int| 0 <= i < n implies #[trigger] body[3 + m + i] == new_side[i] by {}
    assert(rest.subrange(at, at + 3) =~= " @@"@);
    assert(occurs_at(rest, " @@"@, at));
    assert(is_space(' '));
    assert(!is_space('-') && !is_space('+') && !is_space('@'));
    assert forall|i: int| 0 <= i < at implies !occurs_at(rest, " @@"@, i) by {
        if occurs_at(rest, " @@"@, i) {
            let piece = rest.subrange(i, i + 3);
            assert(piece[0] == ' ' && piece[1] == '@');
            assert(rest[i] == ' ' && rest[i + 1] == '@');
            assert(body[i] == rest[i]);
            if 1 <= i < 1 + m {
                assert(body[1 + (i - 1)] == old_side[i - 1]);
            } else if i >= 3 + m {
                assert(body[3 + m + (i - 3 - m)] == new_side[i - 3 - m]);
            }
            assert(i == 1 + m);
            assert(rest[2 + m] == body[2 + m]);
        }
    }
    assert(first_place(rest, " @@"@, at));
    assert(has_body(line, body));
    lemma_header_range(line, body);
    assert(!is_space(body[0]));
    lemma_next_place(body, 0, 0, false);
    assert forall|i: int| 0 <= i < 1 + m implies is_space(#[trigger] body[i]) != true by {
        if i > 0 {
            assert(body[1 + (i - 1)] == old_side[i - 1]);
        }
    }
    lemma_next_place(body, 0, 1 + m, true);
    assert(is_space(body[1 + m]));
    lemma_next_place(body, 1 + m, 2 + m, false);
    assert forall|i: int| 2 + m <= i < body.len() implies is_space(#[trigger] body[i]) != true by {
        if i > 2 + m {
            assert(body[3 + m + (i - 3 - m)] == new_side[i - 3 - m]);
        }
    }
    lemma_next_place(body, 2 + m, body.len() as int, true);
    let word = second_word(body);
    assert(word =~= body.subrange(2 + m, body.len() as int));
    assert(word[0] == '+');
    assert(word.skip(1) =~= new_side);
}

proof fn lemma_digit(d: nat)
    requires
        d < 10,
    ensures
        '0' <= digit(d) <= '9',
        digit(d) as u32 - 48 == d,
{
}

proof fn lemma_decimal(n: nat)
    ensures
        decimal(n).len() > 0,
        digits_value(decimal(n)) == Some(n as int),
        forall|i: int| 0 <= i < decimal(n).len() ==> '0' <= #[trigger] decimal(n)[i] <= '9',
    decreases n,
{
    reveal_with_fuel(digits_value, 2);
    lemma_digit(n % 10);
    let s = decimal(n);
    if n < 10 {
        assert(s.drop_last().len() == 0);
        assert(s.last() == digit(n));
    } else {
        lemma_decimal(n / 10);
        assert(s.drop_last() =~= decimal(n / 10));
        assert(s.last() == digit(n % 10));
        assert forall|i: int| 0 <= i < s.len() implies '0' <= #[trigger] s[i] <= '9' by {
            if i < s.len() - 1 {
                assert(s[i] == decimal(n / 10)[i]);
            }
        }
    }
}

proof fn lemma_number(n: nat)
    ensures
        number_of_text(decimal(n)) == if n <= u32::MAX {
            Some(n as u32)
        } else {
            None
        },
{
    lemma_decimal(n);
    assert(decimal(n)[0] != '+');
}

proof fn lemma_comma(s: Seq<char>, at: int, p: int)
    requires
        0 <= at <= p <= s.len(),
        forall|i: int| at <= i < p ==> #[trigger] s[i] != ',',
        p < s.len() ==> s[p] == ',',
    ensures
        comma_place(s, at) == p,
    decreases p - at,
{
    if at < p {
        lemma_comma(s, at + 1, p);
    }
}

proof fn lemma_one_word(n: nat)
    ensures
        is_one_word(decimal(n)),
{
    lemma_decimal(n);
}

/// A side of a hunk header: a line and a number of lines.
pub open spec fn counted_side(line: nat, count: nat) -> Seq<char> {
    decimal(line) + ","@ + decimal(count)
}

proof fn lemma_counted_side(line: nat, count: nat)
    ensures
        is_one_word(counted_side(line, count)),
{
    reveal_strlit(",");
    lemma_decimal(line);
    lemma_decimal(count);
    let s = counted_side(line, count);
    let m = decimal(line).len() as int;
    assert forall|i: int| 0 <= i < s.len() implies !is_space(#[trigger] s[i]) by {
        if i < m {
            assert(s[i] == decimal(line)[i]);
        } else if i > m {
            assert(s[i] == decimal(count)[i - m - 1]);
        }
    }
}

/// The header of a hunk of `d` new lines from line `c` on tells just these lines, whatever the
/// old side was and whatever follows the closing marker, such as the name of the function that
/// the hunk is in.
pub proof fn hunk_headers_tell_their_lines(a: nat, b: nat, c: nat, d: nat, t: Seq<char>)
    requires
        d > 0,
        c + d <= u32::MAX,
    ensures
        header_range(
            "@@ -"@ + (decimal(a) + ","@ + decimal(b)) + " +"@ + (decimal(c) + ","@ + decimal(d))
                + " @@"@ + t,
        ) == Some((c as u32, (c + d) as u32)),
{
    lemma_counted_side(a, b);
    lemma_counted_side(c, d);
    let new_side = counted_side(c, d);
    only_the_new_side_matters(counted_side(a, b), new_side, t);
    lemma_side(c, d);
}

proof fn lemma_side(c: nat, d: nat)
    requires
        c <= u32::MAX,
        d <= u32::MAX,
    ensures
        side_range(counted_side(c, d)) == ({
            let first = if d == 0 && c == 0 {
                1
            } else {
                c
            };
            let length = if d == 0 {
                1
            } else {
                d
            };
            if first + length <= u32::MAX {
                Some((first as u32, (first + length) as u32))
            } else {
                None
            }
        }),
{
    reveal_strlit(",");
    lemma_decimal(c);
    lemma_decimal(d);
    lemma_number(c);
    lemma_number(d);
    let s = counted_side(c, d);
    let m = decimal(c).len() as int;
    assert forall|i: int| 0 <= i < m implies #[trigger] s[i] != ',' by {
        assert(s[i] == decimal(c)[i]);
    }
    lemma_comma(s, 0, m);
    assert(s.take(m) =~= decimal(c));
    assert(s.skip(m + 1) =~= decimal(d));
}

/// The header of a hunk that only deletes tells the line it stands at, at least the first, so
/// that what encloses it is touched.
pub proof fn deletions_tell_where_they_stand(a: nat, b: nat, c: nat, t: Seq<char>)
    requires
        c < u32::MAX,
    ensures
        header_range(
            "@@ -"@ + (decimal(a) + ","@ + decimal(b)) + " +"@ + (decimal(c) + ","@ + decimal(0))
                + " @@"@ + t,
        ) == if c == 0 {
            Some((1u32, 2u32))
        } else {
            Some((c as u32, (c + 1) as u32))
        },
{
    lemma_counted_side(a, b);
    lemma_counted_side(c, 0);
    only_the_new_side_matters(counted_side(a, b), counted_side(c, 0), t);
    lemma_side(c, 0);
}

/// A new side without a number of lines is one line, whether or not the old side has one.
pub proof fn sides_without_a_count_are_one_line(a: nat, b: nat, c: nat, t: Seq<char>)
    requires
        c < u32::MAX,
    ensures
        header_range("@@ -"@ + decimal(a) + " +"@ + decimal(c) + " @@"@ + t) == Some(
            (c as u32, (c + 1) as u32),
        ),
        header_range(
            "@@ -"@ + (decimal(a) + ","@ + decimal(b)) + " +"@ + decimal(c) + " @@"@ + t,
        ) == Some((c as u32, (c + 1) as u32)),
{
    lemma_one_word(a);
    lemma_one_word(c);
    lemma_counted_side(a, b);
    only_the_new_side_matters(decimal(a), decimal(c), t);
    only_the_new_side_matters(counted_side(a, b), decimal(c), t);
    lemma_decimal(c);
    lemma_number(c);
    let s = decimal(c);
    lemma_comma(s, 0, s.len() as int);
    assert(s.take(s.len() as int) =~= s);
}

/// A line that does not begin as a hunk header is none.
pub proof fn other_lines_are_no_headers(line: Seq<char>)
    requires
        line.len() < 3 || line[0] != '@' || line[1] != '@' || line[2] != ' ',
    ensures
        header_range(line) is None,
{
    reveal_strlit("@@ ");
    assert forall|body: Seq<char>| !#[trigger] has_body(line, body) by {
        if has_body(line, body) {
            assert(line.take(3)[0] == '@' && line.take(3)[1] == '@' && line.take(3)[2] == ' ');
        }
    }
}

proof fn lemma_line_end_at(s: Seq<char>, at: int, p: int)
    requires
        0 <= at <= p <= s.len(),
        forall|i: int| at <= i < p ==> #[trigger] s[i] != '\n',
        p < s.len() ==> s[p] == '\n',
    ensures
        line_end(s, at) == p,
    decreases p - at,
{
    if at < p {
        lemma_line_end_at(s, at + 1, p);
    }
}

proof fn lemma_line_end_is(s: Seq<char>, at: int)
    requires
        0 <= at <= s.len(),
    ensures
        at <= line_end(s, at) <= s.len(),
        forall|i: int| at <= i < line_end(s, at) ==> #[trigger] s[i] != '\n',
        line_end(s, at) < s.len() ==> s[line_end(s, at)] == '\n',
    decreases s.len() - at,
{
    if at < s.len() && s[at] != '\n' {
        lemma_line_end_is(s, at + 1);
    }
}

proof fn lemma_lines_shift(x: Seq<char>, y: Seq<char>, at: int)
    requires
        0 <= at <= y.len(),
    ensures
        lines_from(x + y, x.len() + at) == lines_from(y, at),
    decreases y.len() - at,
{
    let s = x + y;
    let n = x.len() as int;
    if at < y.len() {
        lemma_line_end_is(y, at);
        let p = line_end(y, at);
        assert forall|i: int| n + at <= i < n + p implies #[trigger] s[i] != '\n' by {
            assert(s[i] == y[i - n]);
        }
        if p < y.len() {
            assert(s[n + p] == y[p]);
        }
        lemma_line_end_at(s, n + at, n + p);
        if p > at {
            assert(s[n + p - 1] == y[p - 1]);
        }
        assert(s.subrange(n + at, n + p) =~= y.subrange(at, p));
        if p > at {
            assert(s.subrange(n + at, n + p - 1) =~= y.subrange(at, p - 1));
        }
        assert(line_text(s, n + at, n + p) == line_text(y, at, p));
        if p < y.len() {
            lemma_lines_shift(x, y, p + 1);
            assert(n + p + 1 == n + (p + 1));
        } else {
            assert(lines_from(s, n + p + 1) =~= lines_from(y, p + 1));
        }
    } else {
        assert(lines_from(s, n + at) =~= lines_from(y, at));
    }
}

/// The text is empty or ends with a line feed.
pub open spec fn ends_its_line(x: Seq<char>) -> bool {
    x.len() > 0 ==> x.last() == '\n'
}

proof fn lemma_lines_add_up(x: Seq<char>, y: Seq<char>, at: int)
    requires
        ends_its_line(x),
        0 <= at <= x.len(),
    ensures
        lines_from(x + y, at) == lines_from(x, at) + lines_from(y, 0),
    decreases x.len() - at,
{
    let s = x + y;
    if at == x.len() {
        lemma_lines_shift(x, y, 0);
        assert(lines_from(x, at) + lines_from(y, 0) =~= lines_from(y, 0));
    } else {
        lemma_line_end_is(x, at);
        let p = line_end(x, at);
        assert(p < x.len()) by {
            if p == x.len() {
                assert(x[x.len() - 1] != '\n');
            }
        }
        assert forall|i: int| at <= i < p implies #[trigger] s[i] != '\n' by {
            assert(s[i] == x[i]);
        }
        assert(s[p] == x[p]);
        lemma_line_end_at(s, at, p);
        if p > at {
            assert(s[p - 1] == x[p - 1]);
            assert(s.subrange(at, p - 1) =~= x.subrange(at, p - 1));
        }
        assert(s.subrange(at, p) =~= x.subrange(at, p));
        assert(line_text(s, at, p) == line_text(x, at, p));
        lemma_lines_add_up(x, y, p + 1);
        assert(lines_from(s, at) =~= lines_from(x, at) + lines_from(y, 0));
    }
}

proof fn lemma_states_prefix(x: Seq<Seq<char>>, y: Seq<Seq<char>>, n: int)
    requires
        0 <= n <= x.len(),
    ensures
        after_lines(x + y, n) == after_lines(x, n),
    decreases n,
{
    if n > 0 {
        lemma_states_prefix(x, y, n - 1);
        assert((x + y)[n - 1] == x[n - 1]);
    }
}

proof fn lemma_states_add_up(x: Seq<Seq<char>>, y: Seq<Seq<char>>, n: int)
    requires
        1 <= n <= y.len(),
        names_file(y[0]),
    ensures
        ({
            let both = after_lines(x + y, x.len() + n);
            let alone = after_lines(y, n);
            both.current == alone.current && both.done == with_current(
                after_lines(x, x.len() as int),
            ) + alone.done
        }),
    decreases n,
{
    let before = with_current(after_lines(x, x.len() as int));
    let line = y[n - 1];
    assert((x + y)[x.len() + n - 1] == line);
    let m = x.len() + n - 1;
    assert(after_lines(x + y, x.len() + n) == after_line(after_lines(x + y, m), line));
    if n == 1 {
        lemma_states_prefix(x, y, x.len() as int);
        assert(after_lines(y, 0).done.len() == 0);
        assert(before + with_current(after_lines(y, 0)) =~= before);
    } else {
        lemma_states_add_up(x, y, n - 1);
        let both = after_lines(x + y, m);
        let alone = after_lines(y, n - 1);
        assert(with_current(both) =~= before + with_current(alone));
    }
}

/// Diffs add up: what a diff tells of one file does not depend on the files before it. Where a
/// text that ends its line is followed by one that names a file, the files of both are those of
/// the first and then those of the second.
pub proof fn diffs_add_up(x: Seq<char>, y: Seq<char>)
    requires
        ends_its_line(x),
        y.len() >= 4,
        y[0] == '+' && y[1] == '+' && y[2] == '+' && y[3] == ' ',
    ensures
        diff_changes(x + y) == diff_changes(x) + diff_changes(y),
{
    reveal_strlit("+++ ");
    lemma_lines_add_up(x, y, 0);
    let lx = lines_from(x, 0);
    let ly = lines_from(y, 0);
    lemma_line_end_is(y, 0);
    let p = line_end(y, 0);
    assert(p >= 4) by {
        if p < 4 {
            assert(y[p] == '\n');
        }
    }
    assert(ly[0] == line_text(y, 0, p));
    assert(ly[0].take(4) =~= "+++ "@);
    lemma_states_add_up(lx, ly, ly.len() as int);
    let both = lx + ly;
    assert(both.len() == lx.len() + ly.len());
    assert(with_current(after_lines(both, both.len() as int)) =~= with_current(
        after_lines(lx, lx.len() as int),
    ) + with_current(after_lines(ly, ly.len() as int)));
}

/// The changed lines that the headers among the lines tell, in their order.
pub open spec fn ranges_told(lines: Seq<Seq<char>>) -> Seq<(u32, u32)>
    decreases lines.len(),
{
    if lines.len() == 0 {
        Seq::empty()
    } else {
        let before = ranges_told(lines.drop_last());
        match header_range(lines.last()) {
            Some(range) => before.push(range),
            None => before,
        }
    }
}

/// No line names a file.
pub open spec fn names_no_file(lines: Seq<Seq<char>>) -> bool {
    forall|i: int|
        0 <= i < lines.len() ==> !((#[trigger] lines[i]).len() >= 4 && lines[i][0] == '+'
            && lines[i][1] == '+' && lines[i][2] == '+' && lines[i][3] == ' ')
}

proof fn lemma_section(first: Seq<char>, lines: Seq<Seq<char>>, n: int)
    requires
        names_file(first),
        names_no_file(lines),
        0 <= n <= lines.len(),
    ensures
        ({
            let all = seq![first] + lines;
            let state = after_lines(all, n + 1);
            &&& state.done.len() == 0
            &&& match named_file(first) {
                Some(path) => state.current == Some(
                    FileChange { path, ranges: ranges_told(lines.take(n)) },
                ),
                None => state.current is None,
            }
        }),
    decreases n,
{
    reveal_strlit("+++ ");
    let all = seq![first] + lines;
    if n == 0 {
        reveal_with_fuel(after_lines, 2);
        assert(all[0] == first);
        assert(lines.take(0).len() == 0);
        assert(with_current(after_lines(all, 0)).len() == 0);
    } else {
        lemma_section(first, lines, n - 1);
        let line = lines[n - 1];
        assert(all[n] == line);
        assert(!names_file(line)) by {
            if names_file(line) {
                let head = line.take(4);
                assert(head[0] == '+' && head[1] == '+' && head[2] == '+' && head[3] == ' ');
                assert(line[0] == '+' && line[1] == '+' && line[2] == '+' && line[3] == ' ');
            }
        }
        assert(lines.take(n).drop_last() =~= lines.take(n - 1));
        assert(lines.take(n).last() == line);
        assert(after_lines(all, n + 1) == after_line(after_lines(all, n), all[n]));
    }
}

/// The section of a file tells its path and the lines of all its hunks, in their order; the
/// prefix of the new side is no part of the path.
pub proof fn sections_tell_their_files(path: Seq<char>, hunks: Seq<char>)
    requires
        !path.contains('\n'),
        path.len() > 0,
        path.last() != '\r',
        names_no_file(lines_from(hunks, 0)),
    ensures
        diff_changes("+++ b/"@ + path + "\n"@ + hunks) == seq![
            FileChange { path, ranges: ranges_told(lines_from(hunks, 0)) },
        ],
{
    reveal_strlit("+++ b/");
    reveal_strlit("+++ ");
    reveal_strlit("b/");
    reveal_strlit("/dev/null");
    reveal_strlit("\n");
    let first = "+++ b/"@ + path;
    let x = first + "\n"@;
    lemma_first_line(first);
    assert(first + "\n"@ + hunks =~= x + hunks);
    lemma_lines_add_up(x, hunks, 0);
    let lines = lines_from(hunks, 0);
    assert(first.take(4) =~= "+++ "@);
    let named = first.skip(4);
    assert(named[0] == 'b');
    assert(named.take(2) =~= "b/"@);
    assert(named.skip(2) =~= path);
    assert("/dev/null"@[0] == '/');
    lemma_section(first, lines, lines.len() as int);
    assert(lines.take(lines.len() as int) =~= lines);
    let all = seq![first] + lines;
    assert(lines_from(x + hunks, 0) == all);
    assert(with_current(after_lines(all, all.len() as int)) =~= seq![
        FileChange { path, ranges: ranges_told(lines) },
    ]);
}

proof fn lemma_first_line(first: Seq<char>)
    requires
        first.len() > 0,
        forall|i: int| 0 <= i < first.len() ==> #[trigger] first[i] != '\n',
        first.last() != '\r',
    ensures
        lines_from(first + "\n"@, 0) == seq![first],
        ends_its_line(first + "\n"@),
{
    reveal_strlit("\n");
    let x = first + "\n"@;
    let n = first.len() as int;
    assert(x[n] == '\n');
    assert forall|i: int| 0 <= i < n implies #[trigger] x[i] != '\n' by {
        assert(x[i] == first[i]);
    }
    lemma_line_end_at(x, 0, n);
    assert(x[n - 1] == first[n - 1]);
    assert(line_text(x, 0, n) =~= first);
    assert(lines_from(x, n + 1) =~= Seq::empty());
    assert(lines_from(x, 0) =~= seq![first]);
}

/// A file that is gone has no changes.
pub proof fn deleted_files_have_no_changes(hunks: Seq<char>)
    requires
        names_no_file(lines_from(hunks, 0)),
    ensures
        diff_changes("+++ /dev/null\n"@ + hunks).len() == 0,
{
    reveal_strlit("+++ /dev/null\n");
    reveal_strlit("+++ ");
    reveal_strlit("/dev/null");
    reveal_strlit("\n");
    let x = "+++ /dev/null\n"@;
    let first = "+++ "@ + "/dev/null"@;
    assert(x =~= first + "\n"@);
    assert(first.last() == 'l');
    lemma_first_line(first);
    lemma_lines_add_up(x, hunks, 0);
    let lines = lines_from(hunks, 0);
    assert(first.take(4) =~= "+++ "@);
    assert(first.skip(4) =~= "/dev/null"@);
    lemma_section(first, lines, lines.len() as int);
    let all = seq![first] + lines;
    assert(lines_from(x + hunks, 0) == all);
}

/// What stands before the first file, such as the names that a diff begins with, tells nothing.
pub proof fn text_before_files_tells_nothing(x: Seq<char>)
    requires
        names_no_file(lines_from(x, 0)),
    ensures
        diff_changes(x).len() == 0,
{
    let lines = lines_from(x, 0);
    lemma_nothing_told(lines, lines.len() as int);
}

proof fn lemma_nothing_told(lines: Seq<Seq<char>>, n: int)
    requires
        names_no_file(lines),
        0 <= n <= lines.len(),
    ensures
        after_lines(lines, n).done.len() == 0,
        after_lines(lines, n).current is None,
    decreases n,
{
    reveal_strlit("+++ ");
    if n > 0 {
        lemma_nothing_told(lines, n - 1);
        let line = lines[n - 1];
        if names_file(line) {
            let head = line.take(4);
            assert(head[0] == '+' && head[1] == '+' && head[2] == '+' && head[3] == ' ');
            assert(line[0] == '+' && line[1] == '+' && line[2] == '+' && line[3] == ' ');
        }
    }
}

/// The line on which the byte at a place stands: lines count from one, and a line feed ends
/// its line.
pub open spec fn line_of_byte(b: Seq<u8>, at: int) -> int
    decreases at,
{
    if at <= 0 {
        1
    } else {
        line_of_byte(b, at - 1) + if b[at - 1] == 10 {
            1int
        } else {
            0int
        }
    }
}

proof fn lemma_line_is_starts(b: Seq<u8>, n: int)
    ensures
        line_of_byte(b, n) == starts_of(b, n).len(),
    decreases n,
{
    if n > 0 {
        lemma_line_is_starts(b, n - 1);
    }
}

proof fn lemma_starts_grow(b: Seq<u8>, i: int, n: int)
    requires
        0 <= i <= n <= b.len() <= usize::MAX,
    ensures
        starts_of(b, i).len() <= starts_of(b, n).len(),
        forall|k: int|
            0 <= k < starts_of(b, i).len() ==> #[trigger] starts_of(b, n)[k] == starts_of(b, i)[k],
        forall|k: int|
            starts_of(b, i).len() <= k < starts_of(b, n).len() ==> #[trigger] starts_of(b, n)[k]
                > i,
    decreases n,
{
    if n > i {
        lemma_starts_grow(b, i, n - 1);
    }
}

/// A start lies before a byte exactly when its line is not behind that of the byte.
proof fn lemma_start_and_line(b: Seq<u8>, k: int, at: int)
    requires
        b.len() <= usize::MAX,
        0 <= at < b.len(),
        0 <= k < starts_of(b, b.len() as int).len(),
    ensures
        starts_of(b, b.len() as int)[k] <= at <==> k + 1 <= line_of_byte(b, at),
{
    lemma_line_is_starts(b, at);
    lemma_starts_grow(b, at, b.len() as int);
    lemma_starts_bounded(b, at);
    if k < starts_of(b, at).len() {
        assert(starts_of(b, b.len() as int)[k] == starts_of(b, at)[k]);
    }
}

/// The byte stands in the span, on one of the lines.
pub open spec fn is_common(b: Seq<u8>, span: ByteSpan, first: u32, behind: u32, at: int) -> bool {
    span.start <= at < span.end && first <= line_of_byte(b, at) < behind
}

/// Changed lines touch a definition exactly when some byte of it stands on one of them.
pub proof fn changed_lines_touch_what_stands_on_them(
    source: Seq<char>,
    span: ByteSpan,
    first: u32,
    behind: u32,
)
    requires
        encode_utf8(source).len() <= usize::MAX,
        span.start < span.end <= encode_utf8(source).len(),
        1 <= first < behind,
    ensures
        is_touched(span, source, seq![(first, behind)]) <==> exists|at: int| #[trigger]
            is_common(encode_utf8(source), span, first, behind, at),
{
    let b = encode_utf8(source);
    let starts = starts_of(b, b.len() as int);
    lemma_starts_bounded(b, b.len() as int);
    let ranges = seq![(first, behind)];
    assert(ranges[0] == (first, behind));
    let found = byte_range(starts, b.len() as usize, first, behind);
    assert(is_touched(span, source, ranges) <==> (found matches Some((start, end)) && overlaps(
        span,
        start,
        end,
    ))) by {
        if is_touched(span, source, ranges) {
            let k = choose|k: int|
                0 <= k < ranges.len() && (byte_range(
                    starts,
                    b.len() as usize,
                    (#[trigger] ranges[k]).0,
                    ranges[k].1,
                ) matches Some((start, end)) && overlaps(span, start, end));
            assert(k == 0);
        }
    }
    if first <= starts.len() {
        let start = starts[first - 1] as int;
        assert(start <= b.len());
        if is_touched(span, source, ranges) {
            let at: int = if span.start < start {
                start
            } else {
                span.start as int
            };
            assert(at < b.len());
            lemma_start_and_line(b, first - 1, at);
            if behind - 1 < starts.len() {
                lemma_starts_ascend(b, first - 1, behind - 1);
                lemma_start_and_line(b, behind - 1, at);
            } else {
                lemma_line_is_starts(b, at);
                lemma_starts_grow(b, at, b.len() as int);
            }
            assert(is_common(b, span, first, behind, at));
        }
        if exists|at: int| #[trigger] is_common(b, span, first, behind, at) {
            let at = choose|at: int| #[trigger] is_common(b, span, first, behind, at);
            lemma_start_and_line(b, first - 1, at);
            if behind - 1 < starts.len() {
                lemma_start_and_line(b, behind - 1, at);
            }
        }
    } else {
        assert forall|at: int| !#[trigger] is_common(b, span, first, behind, at) by {
            if is_common(b, span, first, behind, at) {
                lemma_line_is_starts(b, at);
                lemma_starts_grow(b, at, b.len() as int);
            }
        }
    }
}

proof fn lemma_starts_ascend(b: Seq<u8>, i: int, j: int)
    requires
        b.len() <= usize::MAX,
        0 <= i < j < starts_of(b, b.len() as int).len(),
    ensures
        starts_of(b, b.len() as int)[i] < starts_of(b, b.len() as int)[j],
{
    lemma_starts_ascend_in(b, b.len() as int, i, j);
}

proof fn lemma_starts_ascend_in(b: Seq<u8>, n: int, i: int, j: int)
    requires
        0 <= n <= b.len() <= usize::MAX,
        0 <= i < j < starts_of(b, n).len(),
    ensures
        starts_of(b, n)[i] < starts_of(b, n)[j],
    decreases n,
{
    if n > 0 {
        if j < starts_of(b, n - 1).len() {
            lemma_starts_ascend_in(b, n - 1, i, j);
        } else {
            lemma_starts_bounded(b, n - 1);
            assert(starts_of(b, n)[i] == starts_of(b, n - 1)[i]);
        }
    }
}

/// Of several ranges of changed lines each touches what it touches alone.
pub proof fn ranges_touch_one_by_one(source: Seq<char>, span: ByteSpan, ranges: Seq<(u32, u32)>)
    ensures
        is_touched(span, source, ranges) <==> exists|k: int|
            0 <= k < ranges.len() && is_touched(span, source, seq![#[trigger] ranges[k]]),
{
    let bytes = encode_utf8(source);
    let starts = starts_of(bytes, bytes.len() as int);
    let total = bytes.len() as usize;
    if is_touched(span, source, ranges) {
        let k = choose|k: int|
            0 <= k < ranges.len() && (byte_range(
                starts,
                total,
                (#[trigger] ranges[k]).0,
                ranges[k].1,
            ) matches Some((start, end)) && overlaps(span, start, end));
        assert(seq![ranges[k]][0] == ranges[k]);
        assert(is_touched(span, source, seq![ranges[k]]));
    }
    if exists|k: int|
        0 <= k < ranges.len() && is_touched(span, source, seq![#[trigger] ranges[k]]) {
        let k = choose|k: int|
            0 <= k < ranges.len() && is_touched(span, source, seq![#[trigger] ranges[k]]);
        let one = seq![ranges[k]];
        let m = choose|m: int|
            0 <= m < one.len() && (byte_range(
                starts,
                total,
                (#[trigger] one[m]).0,
                one[m].1,
            ) matches Some((start, end)) && overlaps(span, start, end));
        assert(one[m] == ranges[k]);
    }
}

/// A change touches a definition: the definition stands in the changed file, the file could be
/// read, and its changed lines touch the definition.
pub open spec fn touches(change: FileChange, source: Option<Seq<char>>, s: SymbolView) -> bool {
    &&& source is Some
    &&& rejection(encode_utf8(change.path)) is None
    &&& s.file == normalized(change.path)
    &&& is_touched(s.span, source->0, change.ranges)
}

proof fn lemma_touched(
    definitions: Seq<SymbolView>,
    change: FileChange,
    source: Option<Seq<char>>,
    s: SymbolView,
)
    ensures
        touched_definitions(definitions, change, source).contains(s) <==> definitions.contains(s)
            && touches(change, source, s),
{
    if source is Some && rejection(encode_utf8(change.path)) is None {
        let scope = SymbolScopeView::InFile(normalized(change.path));
        let p = |x: SymbolView| symbol_covered(scope, x);
        let q = |x: SymbolView| is_touched(x.span, source->0, change.ranges);
        let covered = definitions_covered(definitions, scope);
        assert(covered == definitions.filter(p));
        lemma_filter_is_exact(definitions, p);
        lemma_filter_is_exact(covered, q);
        let kept = covered.filter(q);
        if kept.contains(s) {
            let i = choose|i: int| 0 <= i < kept.len() && kept[i] == s;
            assert(q(kept[i]) && covered.contains(kept[i]));
            let j = choose|j: int| 0 <= j < covered.len() && covered[j] == s;
            assert(p(covered[j]) && definitions.contains(covered[j]));
        }
        if definitions.contains(s) && touches(change, source, s) {
            let i = choose|i: int| 0 <= i < definitions.len() && definitions[i] == s;
            assert(p(definitions[i]));
            assert(covered.contains(s));
            let j = choose|j: int| 0 <= j < covered.len() && covered[j] == s;
            assert(q(covered[j]));
            assert(kept.contains(s));
        }
    }
}

proof fn lemma_with_new(seeds: Seq<IdView>, found: Seq<SymbolView>, n: int, id: IdView)
    requires
        0 <= n <= found.len(),
    ensures
        with_new(seeds, found, n).contains(id) <==> seeds.contains(id) || exists|i: int|
            0 <= i < n && (#[trigger] found[i]).id == id,
    decreases n,
{
    if n > 0 {
        lemma_with_new(seeds, found, n - 1, id);
        let before = with_new(seeds, found, n - 1);
        let last = found[n - 1].id;
        if !before.contains(last) {
            let after = before.push(last);
            if before.contains(id) {
                let i = choose|i: int| 0 <= i < before.len() && before[i] == id;
                assert(after[i] == id);
            }
            assert(after[before.len() as int] == last);
            if after.contains(id) && id != last {
                let i = choose|i: int| 0 <= i < after.len() && after[i] == id;
                assert(before[i] == id);
            }
        }
    }
}

/// A definition whose identity is the seed is touched by one of the first changes.
pub open spec fn some_change_touches(
    definitions: Seq<SymbolView>,
    changes: Seq<FileChange>,
    sources: Seq<Option<Seq<char>>>,
    n: int,
    id: IdView,
) -> bool {
    exists|k: int, s: SymbolView|
        #![trigger changes[k], definitions.contains(s)]
        0 <= k < n && definitions.contains(s) && s.id == id && touches(changes[k], sources[k], s)
}

/// The symbols that a diff touches are those of which it touches a definition, and no others.
pub proof fn seeds_are_what_changes_touch(
    definitions: Seq<SymbolView>,
    changes: Seq<FileChange>,
    sources: Seq<Option<Seq<char>>>,
    n: int,
    id: IdView,
)
    requires
        0 <= n <= changes.len(),
        changes.len() == sources.len(),
    ensures
        seeds_of(definitions, changes, sources, n).contains(id) <==> some_change_touches(
            definitions,
            changes,
            sources,
            n,
            id,
        ),
    decreases n,
{
    if n > 0 {
        seeds_are_what_changes_touch(definitions, changes, sources, n - 1, id);
        let before = seeds_of(definitions, changes, sources, n - 1);
        let found = touched_definitions(definitions, changes[n - 1], sources[n - 1]);
        lemma_with_new(before, found, found.len() as int, id);
        if some_change_touches(definitions, changes, sources, n, id) {
            let (k, s) = choose|k: int, s: SymbolView|
                #![trigger changes[k], definitions.contains(s)]
                0 <= k < n && definitions.contains(s) && s.id == id && touches(
                    changes[k],
                    sources[k],
                    s,
                );
            if k == n - 1 {
                lemma_touched(definitions, changes[n - 1], sources[n - 1], s);
                let i = choose|i: int| 0 <= i < found.len() && found[i] == s;
                assert(found[i].id == id);
            } else {
                assert(changes[k] == changes[k] && definitions.contains(s));
                assert(some_change_touches(definitions, changes, sources, n - 1, id));
            }
        }
        if some_change_touches(definitions, changes, sources, n - 1, id) {
            let (k, s) = choose|k: int, s: SymbolView|
                #![trigger changes[k], definitions.contains(s)]
                0 <= k < n - 1 && definitions.contains(s) && s.id == id && touches(
                    changes[k],
                    sources[k],
                    s,
                );
            assert(k < n && definitions.contains(s) && touches(changes[k], sources[k], s));
        }
        if exists|i: int| 0 <= i < found.len() && (#[trigger] found[i]).id == id {
            let i = choose|i: int| 0 <= i < found.len() && (#[trigger] found[i]).id == id;
            assert(found.contains(found[i]));
            lemma_touched(definitions, changes[n - 1], sources[n - 1], found[i]);
            assert(definitions.contains(found[i]) && touches(
                changes[n - 1],
                sources[n - 1],
                found[i],
            ));
        }
    }
}

/// The impact of a diff is that of the symbols that it touches, of all of them and of no other,
/// each once, over the role, within the bounds and at the confidence that are asked for.
pub proof fn diff_impact_starts_from_what_changed<R: GraphRead, C: Cancellation>(
    context: QueryCommandContext<'_, R, C>,
    request: DiffImpactCommandRequest,
    changes: Seq<FileLineRanges>,
    sources: Seq<Option<String>>,
    envelope: OutputEnvelope<Vec<ImpactOutput>>,
)
    requires
        is_diff_impact_answer(context, request, changes, sources, Ok(envelope)),
        changes.len() == sources.len(),
    ensures
        envelope.total == envelope.results@.len(),
        envelope.returned == envelope.results@.len(),
        exists|seeds: Seq<IdView>| #[trigger]
            answers_impact(
                context.index.definitions(),
                context.index.relations(),
                ImpactBounds {
                    role: request.role,
                    depth: request.depth,
                    max_nodes: request.max_nodes,
                    min_confidence: request.min_confidence,
                },
                seeds,
                envelope.results@,
                envelope.truncated,
            ) && seeds.no_duplicates() && forall|id: IdView| #[trigger]
                seeds.contains(id) <==> some_change_touches(
                    context.index.definitions(),
                    change_views(changes),
                    source_views(sources),
                    changes.len() as int,
                    id,
                ),
{
    let definitions = context.index.definitions();
    let files = change_views(changes);
    let texts = source_views(sources);
    let n = changes.len() as int;
    let seeds = seeds_of(definitions, files, texts, n);
    seeds_are_distinct(definitions, files, texts, n);
    assert forall|id: IdView| #[trigger] seeds.contains(id) <==> some_change_touches(
        definitions,
        files,
        texts,
        n,
        id,
    ) by {
        seeds_are_what_changes_touch(definitions, files, texts, n, id);
    }
}

/// A carriage return before the line feed is no part of a line, so that a diff with both ends of
/// line reads like one without.
pub proof fn carriage_returns_are_no_part_of_lines(first: Seq<char>)
    requires
        first.len() > 0,
        !first.contains('\n'),
        first.last() != '\r',
    ensures
        lines_from(first + "\r\n"@, 0) == lines_from(first + "\n"@, 0),
{
    reveal_strlit("\r\n");
    assert forall|i: int| 0 <= i < first.len() implies #[trigger] first[i] != '\n' by {
        assert(first.contains(first[i]));
    }
    lemma_first_line(first);
    let x = first + "\r\n"@;
    let n = first.len() as int;
    assert(x[n] == '\r' && x[n + 1] == '\n');
    assert forall|i: int| 0 <= i < n + 1 implies #[trigger] x[i] != '\n' by {
        if i < n {
            assert(x[i] == first[i]);
        }
    }
    lemma_line_end_at(x, 0, n + 1);
    assert(line_text(x, 0, n + 1) =~= first);
    assert(lines_from(x, n + 2) =~= Seq::empty());
    assert(lines_from(x, 0) =~= seq![first]);
}

/// A path without the prefix of the new side is the path as it stands.
pub proof fn paths_without_a_prefix_stay(path: Seq<char>, hunks: Seq<char>)
    requires
        !path.contains('\n'),
        path.len() > 0,
        path.last() != '\r',
        path != "/dev/null"@,
        path.len() < 2 || path[0] != 'b' || path[1] != '/',
        names_no_file(lines_from(hunks, 0)),
    ensures
        diff_changes("+++ "@ + path + "\n"@ + hunks) == seq![
            FileChange { path, ranges: ranges_told(lines_from(hunks, 0)) },
        ],
{
    reveal_strlit("+++ ");
    reveal_strlit("b/");
    reveal_strlit("\n");
    let first = "+++ "@ + path;
    let x = first + "\n"@;
    assert forall|i: int| 0 <= i < first.len() implies #[trigger] first[i] != '\n' by {
        if i >= 4 {
            assert(path.contains(path[i - 4]));
            assert(first[i] == path[i - 4]);
        }
    }
    assert(first.last() == path.last());
    lemma_first_line(first);
    assert(first + "\n"@ + hunks =~= x + hunks);
    lemma_lines_add_up(x, hunks, 0);
    let lines = lines_from(hunks, 0);
    assert(first.take(4) =~= "+++ "@);
    assert(first.skip(4) =~= path);
    assert(!begins_with(path, "b/"@)) by {
        if begins_with(path, "b/"@) {
            assert(path.take(2)[0] == 'b' && path.take(2)[1] == '/');
        }
    }
    lemma_section(first, lines, lines.len() as int);
    assert(lines.take(lines.len() as int) =~= lines);
    let all = seq![first] + lines;
    assert(lines_from(x + hunks, 0) == all);
    assert(with_current(after_lines(all, all.len() as int)) =~= seq![
        FileChange { path, ranges: ranges_told(lines) },
    ]);
}

} // verus!
