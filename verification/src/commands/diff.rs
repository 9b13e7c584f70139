//! Changed line ranges of a diff, and the bytes that they cover.

use vstd::prelude::*;
use vstd::string::*;
use vstd::utf8::*;
use crate::graph::ByteSpan;
use crate::text::{begins_with, chars_of, occurs_at};

verus! {

/// The changed lines of one file on the new side: ranges of lines that count from
/// one, each without its end.
#[derive(Debug, Clone, PartialEq, Eq)]
pub struct FileLineRanges {
    pub path: String,
    pub ranges: Vec<(u32, u32)>,
}

/// The changed lines of one file.
pub struct FileChange {
    pub path: Seq<char>,
    pub ranges: Seq<(u32, u32)>,
}

impl FileLineRanges {
    /// The changed lines.
    pub open spec fn view(self) -> FileChange {
        FileChange { path: self.path@, ranges: self.ranges@ }
    }
}

/// The place of the first line feed from `at` on, or the end.
pub open spec fn line_end(s: Seq<char>, at: int) -> int
    decreases s.len() - at,
{
    if at < 0 || at >= s.len() {
        s.len() as int
    } else if s[at] == '\n' {
        at
    } else {
        line_end(s, at + 1)
    }
}

/// The text of a line that ends at `end`: a carriage return before a line feed is not
/// part of it.
pub open spec fn line_text(s: Seq<char>, start: int, end: int) -> Seq<char> {
    if end < s.len() && end > start && s[end - 1] == '\r' {
        s.subrange(start, end - 1)
    } else {
        s.subrange(start, end)
    }
}

proof fn lemma_line_end(s: Seq<char>, at: int)
    requires
        0 <= at <= s.len(),
    ensures
        at <= line_end(s, at) <= s.len(),
    decreases s.len() - at,
{
    if at < s.len() && s[at] != '\n' {
        lemma_line_end(s, at + 1);
    }
}

/// The lines of a text from `at` on. A line feed at the very end opens no line.
pub open spec fn lines_from(s: Seq<char>, at: int) -> Seq<Seq<char>>
    decreases s.len() + 1 - at,
    via lines_from_decreases
{
    if at < 0 || at >= s.len() {
        Seq::empty()
    } else {
        seq![line_text(s, at, line_end(s, at))] + lines_from(s, line_end(s, at) + 1)
    }
}

#[via_fn]
proof fn lines_from_decreases(s: Seq<char>, at: int) {
    if !(at < 0 || at >= s.len()) {
        lemma_line_end(s, at);
    }
}

/// The character separates words.
pub open spec fn is_space(c: char) -> bool {
    let n = c as u32;
    9 <= n <= 13 || n == 32 || n == 0x85 || n == 0xA0 || n == 0x1680 || 0x2000 <= n <= 0x200A || n
        == 0x2028 || n == 0x2029 || n == 0x202F || n == 0x205F || n == 0x3000
}

fn space(c: char) -> (r: bool)
    ensures
        r == is_space(c),
{
    let n: u32 = c as u32;
    (9 <= n && n <= 13) || n == 32 || n == 0x85 || n == 0xA0 || n == 0x1680 || (0x2000 <= n && n
        <= 0x200A) || n == 0x2028 || n == 0x2029 || n == 0x202F || n == 0x205F || n == 0x3000
}

/// The place of the first character from `at` on that is a space, or is none, as is
/// asked for; or the end.
pub open spec fn next_place(s: Seq<char>, at: int, spaces: bool) -> int
    decreases s.len() - at,
{
    if at < 0 || at >= s.len() {
        s.len() as int
    } else if is_space(s[at]) == spaces {
        at
    } else {
        next_place(s, at + 1, spaces)
    }
}

/// The first word from `at` on begins here.
pub open spec fn word_start(s: Seq<char>, at: int) -> int {
    next_place(s, at, false)
}

/// The word that begins at `at` ends here.
pub open spec fn word_end(s: Seq<char>, at: int) -> int {
    next_place(s, at, true)
}

fn find_place(s: &Vec<char>, at: usize, spaces: bool) -> (r: usize)
    requires
        at <= s@.len(),
    ensures
        r == next_place(s@, at as int, spaces),
        at <= r <= s@.len(),
{
    let mut i: usize = at;
    while i < s.len()
        invariant
            at <= i <= s.len(),
            next_place(s@, at as int, spaces) == next_place(s@, i as int, spaces),
        decreases s.len() - i,
    {
        if space(s[i]) == spaces {
            return i;
        }
        i += 1;
    }
    i
}

/// The value of a row of digits.
pub open spec fn digits_value(s: Seq<char>) -> Option<int>
    decreases s.len(),
{
    if s.len() == 0 {
        Some(0)
    } else {
        match digits_value(s.drop_last()) {
            Some(v) => if '0' <= s.last() <= '9' {
                Some(v * 10 + (s.last() as u32 - 48))
            } else {
                None
            },
            None => None,
        }
    }
}

/// The digits of a number: a plus sign may stand before them.
pub open spec fn digits_of(s: Seq<char>) -> Seq<char> {
    if s.len() > 0 && s[0] == '+' {
        s.skip(1)
    } else {
        s
    }
}

/// The number that a text spells, if it spells one that fits.
pub open spec fn number_of_text(s: Seq<char>) -> Option<u32> {
    let digits = digits_of(s);
    if digits.len() == 0 {
        None
    } else {
        match digits_value(digits) {
            Some(v) => if v <= u32::MAX {
                Some(v as u32)
            } else {
                None
            },
            None => None,
        }
    }
}

proof fn lemma_digits_grow(s: Seq<char>, n: int)
    requires
        0 <= n <= s.len(),
        digits_value(s) is Some,
    ensures
        digits_value(s.take(n)) is Some,
        0 <= digits_value(s.take(n))->0 <= digits_value(s)->0,
    decreases s.len(),
{
    if n == s.len() {
        assert(s.take(n) =~= s);
        if s.len() > 0 {
            lemma_digits_grow(s.drop_last(), s.len() - 1);
            assert(s.drop_last().take(s.len() - 1) =~= s.drop_last());
        }
    } else {
        lemma_digits_grow(s.drop_last(), n);
        assert(s.drop_last().take(n) =~= s.take(n));
    }
}

fn parse_number(s: &Vec<char>, from: usize, to: usize) -> (r: Option<u32>)
    requires
        from <= to <= s@.len(),
    ensures
        r == number_of_text(s@.subrange(from as int, to as int)),
{
    let ghost text = s@.subrange(from as int, to as int);
    let start: usize = if from < to && s[from] == '+' {
        from + 1
    } else {
        from
    };
    let ghost digits = digits_of(text);
    assert(digits =~= s@.subrange(start as int, to as int));
    if start == to {
        return None;
    }
    let mut value: u64 = 0;
    let mut i: usize = start;
    assert(digits.take(0) =~= Seq::<char>::empty());
    while i < to
        invariant
            start <= i <= to <= s@.len(),
            digits == s@.subrange(start as int, to as int),
            digits == digits_of(s@.subrange(from as int, to as int)),
            digits.len() > 0,
            digits_value(digits.take(i - start)) == Some(value as int),
            value <= u32::MAX,
        decreases to - i,
    {
        let c = s[i];
        let ghost more = digits.take(i - start + 1);
        proof {
            assert(more.drop_last() =~= digits.take(i - start));
            assert(more.last() == c);
        }
        if c < '0' || c > '9' {
            proof {
                assert(digits_value(more) is None);
                if digits_value(digits) is Some {
                    lemma_digits_grow(digits, i - start + 1);
                }
            }
            return None;
        }
        value = value * 10 + (c as u32 - 48) as u64;
        if value > u32::MAX as u64 {
            proof {
                if digits_value(digits) is Some {
                    lemma_digits_grow(digits, i - start + 1);
                }
            }
            return None;
        }
        i += 1;
    }
    assert(digits.take(i - start) =~= digits);
    Some(value as u32)
}

/// The place of the first comma, or the end.
pub open spec fn comma_place(s: Seq<char>, at: int) -> int
    decreases s.len() - at,
{
    if at < 0 || at >= s.len() {
        s.len() as int
    } else if s[at] == ',' {
        at
    } else {
        comma_place(s, at + 1)
    }
}

/// The range that the new side of a hunk spells, such as `12,3`, once its sign is
/// gone. A pure deletion is a point: the line it stands at, at least the first. What
/// spells no range, or one whose end does not fit, is none.
pub open spec fn side_range(s: Seq<char>) -> Option<(u32, u32)> {
    let comma = comma_place(s, 0);
    let start = number_of_text(s.take(comma));
    let count = if comma < s.len() {
        number_of_text(s.skip(comma + 1))
    } else {
        Some(1u32)
    };
    match (start, count) {
        (Some(start), Some(count)) => {
            let first: int = if count == 0 && start == 0 {
                1
            } else {
                start as int
            };
            let length: int = if count == 0 {
                1
            } else {
                count as int
            };
            if first + length <= u32::MAX {
                Some((first as u32, (first + length) as u32))
            } else {
                None
            }
        },
        _ => None,
    }
}

/// The second word of a hunk's body.
pub open spec fn second_word(s: Seq<char>) -> Seq<char> {
    let after_first = word_end(s, word_start(s, 0));
    let start = word_start(s, after_first);
    s.subrange(start, word_end(s, start))
}

/// The first place of the needle.
pub open spec fn first_place(hay: Seq<char>, needle: Seq<char>, at: int) -> bool {
    occurs_at(hay, needle, at) && forall|i: int| 0 <= i < at ==> !occurs_at(hay, needle, i)
}

/// The line is a hunk header with the body.
pub open spec fn has_body(line: Seq<char>, body: Seq<char>) -> bool {
    begins_with(line, "@@ "@) && exists|at: int| #[trigger]
        first_place(line.skip(3), " @@"@, at) && body == line.skip(3).take(at)
}

/// The range of a hunk header's body.
pub open spec fn body_range(body: Seq<char>) -> Option<(u32, u32)> {
    let word = second_word(body);
    if word.len() > 0 && word[0] == '+' {
        side_range(word.skip(1))
    } else {
        None
    }
}

/// The changed lines that a hunk header tells, if the line is one.
pub open spec fn header_range(line: Seq<char>) -> Option<(u32, u32)> {
    if exists|body: Seq<char>| #[trigger] has_body(line, body) {
        body_range(choose|body: Seq<char>| #[trigger] has_body(line, body))
    } else {
        None
    }
}

pub(crate) proof fn lemma_header_range(line: Seq<char>, body: Seq<char>)
    requires
        has_body(line, body),
    ensures
        header_range(line) == body_range(body),
{
    let other = choose|other: Seq<char>| #[trigger] has_body(line, other);
    let a = choose|at: int| #[trigger]
        first_place(line.skip(3), " @@"@, at) && body == line.skip(3).take(at);
    let b = choose|at: int| #[trigger]
        first_place(line.skip(3), " @@"@, at) && other == line.skip(3).take(at);
    if a < b {
        assert(!occurs_at(line.skip(3), " @@"@, a));
    } else if b < a {
        assert(!occurs_at(line.skip(3), " @@"@, b));
    }
    assert(body == other);
}

fn occurs(s: &Vec<char>, needle: &Vec<char>, at: usize) -> (r: bool)
    requires
        at <= s@.len(),
    ensures
        r == occurs_at(s@, needle@, at as int),
{
    if needle.len() > s.len() - at {
        return false;
    }
    let mut i: usize = 0;
    while i < needle.len()
        invariant
            i <= needle.len(),
            at + needle.len() <= s.len(),
            forall|j: int| 0 <= j < i ==> s@[at + j] == needle@[j],
        decreases needle.len() - i,
    {
        if s[at + i] != needle[i] {
            assert(s@.subrange(at as int, at + needle@.len())[i as int] != needle@[i as int]);
            return false;
        }
        i += 1;
    }
    assert(s@.subrange(at as int, at + needle@.len()) =~= needle@);
    true
}

/// Parses the new side of a hunk: `from` is behind its sign.
fn parse_side(s: &Vec<char>, from: usize, to: usize) -> (r: Option<(u32, u32)>)
    requires
        from <= to <= s@.len(),
    ensures
        r == side_range(s@.subrange(from as int, to as int)),
{
    let ghost text = s@.subrange(from as int, to as int);
    let mut comma: usize = from;
    while comma < to && s[comma] != ','
        invariant
            from <= comma <= to <= s@.len(),
            text == s@.subrange(from as int, to as int),
            comma_place(text, 0) == comma_place(text, comma - from),
        decreases to - comma,
    {
        assert(text[comma - from] == s@[comma as int]);
        comma += 1;
    }
    proof {
        if comma < to {
            assert(text[comma - from] == s@[comma as int]);
        }
        assert(comma_place(text, 0) == comma - from);
        assert(text.take(comma - from) =~= s@.subrange(from as int, comma as int));
    }
    let start = match parse_number(s, from, comma) {
        Some(n) => n,
        None => {
            return None;
        },
    };
    let count: u32 = if comma < to {
        assert(text.skip(comma - from + 1) =~= s@.subrange(comma + 1, to as int));
        match parse_number(s, comma + 1, to) {
            Some(n) => n,
            None => {
                return None;
            },
        }
    } else {
        1
    };
    let first: u32 = if count == 0 && start == 0 {
        1
    } else {
        start
    };
    let length: u32 = if count == 0 {
        1
    } else {
        count
    };
    if length > u32::MAX - first {
        None
    } else {
        Some((first, first + length))
    }
}

/// Parses a hunk header such as `@@ -a,b +c,d @@` into the changed lines of the new
/// side. What is no such header gives nothing.
pub fn parse_hunk_header(line: &str) -> (r: Option<(u32, u32)>)
    ensures
        r == header_range(line@),
{
    let all = chars_of(line);
    parse_header(&all)
}

fn parse_header(line: &Vec<char>) -> (r: Option<(u32, u32)>)
    ensures
        r == header_range(line@),
{
    let opening = chars_of("@@ ");
    let closing = chars_of(" @@");
    proof {
        reveal_strlit("@@ ");
        reveal_strlit(" @@");
    }
    if !occurs(line, &opening, 0) {
        proof {
            if begins_with(line@, "@@ "@) {
                assert(line@.subrange(0, 3) =~= line@.take(3));
            }
        }
        return None;
    }
    assert(line@.take(3) =~= line@.subrange(0, 3));
    let ghost rest = line@.skip(3);
    let mut at: usize = 3;
    while at < line.len() && !occurs(line, &closing, at)
        invariant
            3 <= at <= line.len(),
            closing@ == " @@"@,
            closing@.len() == 3,
            rest == line@.skip(3),
            forall|i: int| 0 <= i < at - 3 ==> !occurs_at(rest, " @@"@, i),
        decreases line.len() - at,
    {
        proof {
            assert(!occurs_at(rest, " @@"@, at - 3)) by {
                if occurs_at(rest, " @@"@, at - 3) {
                    assert(rest.subrange(at - 3, at - 3 + 3) =~= line@.subrange(
                        at as int,
                        at + 3,
                    ));
                }
            }
        }
        at += 1;
    }
    if at == line.len() {
        proof {
            assert forall|body: Seq<char>| !#[trigger] has_body(line@, body) by {
                if has_body(line@, body) {
                    let p = choose|p: int| #[trigger]
                        first_place(rest, " @@"@, p) && body == rest.take(p);
                    assert(occurs_at(rest, " @@"@, p));
                    assert(p < at - 3);
                }
            }
        }
        return None;
    }
    let ghost body = rest.take(at - 3);
    proof {
        assert(line@.subrange(at as int, at + 3) =~= rest.subrange(at - 3, at - 3 + 3));
        assert(first_place(rest, " @@"@, at - 3));
        assert(has_body(line@, body));
        lemma_header_range(line@, body);
    }
    let mut text: Vec<char> = Vec::new();
    let mut i: usize = 3;
    while i < at
        invariant
            3 <= i <= at <= line.len(),
            rest == line@.skip(3),
            text@ == rest.take(i - 3),
        decreases at - i,
    {
        text.push(line[i]);
        i += 1;
        assert(text@ =~= rest.take(i - 3));
    }
    let first = find_place(&text, 0, false);
    let first_end = find_place(&text, first, true);
    let second = find_place(&text, first_end, false);
    let second_end = find_place(&text, second, true);
    let ghost word = body.subrange(second as int, second_end as int);
    if second == second_end || text[second] != '+' {
        return None;
    }
    assert(word.skip(1) =~= body.subrange(second + 1, second_end as int));
    parse_side(&text, second + 1, second_end)
}

/// The line names the new side of a file.
pub open spec fn names_file(line: Seq<char>) -> bool {
    begins_with(line, "+++ "@)
}

/// The path of the new side of a file; none when the file is gone.
pub open spec fn named_file(line: Seq<char>) -> Option<Seq<char>> {
    let path = line.skip(4);
    if path == "/dev/null"@ {
        None
    } else if begins_with(path, "b/"@) {
        Some(path.skip(2))
    } else {
        Some(path)
    }
}

/// What the first lines of a diff tell: the files that are done, and the one whose
/// hunks follow.
pub struct DiffState {
    pub done: Seq<FileChange>,
    pub current: Option<FileChange>,
}

/// The files so far, the current one among them.
pub open spec fn with_current(state: DiffState) -> Seq<FileChange> {
    match state.current {
        Some(change) => state.done.push(change),
        None => state.done,
    }
}

/// What one more line tells.
pub open spec fn after_line(state: DiffState, line: Seq<char>) -> DiffState {
    if names_file(line) {
        DiffState {
            done: with_current(state),
            current: match named_file(line) {
                Some(path) => Some(FileChange { path, ranges: Seq::empty() }),
                None => None,
            },
        }
    } else {
        match (state.current, header_range(line)) {
            (Some(change), Some(range)) => DiffState {
                done: state.done,
                current: Some(FileChange { path: change.path, ranges: change.ranges.push(range) }),
            },
            _ => state,
        }
    }
}

/// What the first `n` lines tell.
pub open spec fn after_lines(lines: Seq<Seq<char>>, n: int) -> DiffState
    decreases n,
{
    if n <= 0 {
        DiffState { done: Seq::empty(), current: None }
    } else {
        after_line(after_lines(lines, n - 1), lines[n - 1])
    }
}

/// The files that a diff changes, with their changed lines, in its order. Deleted
/// files are not among them.
pub open spec fn diff_changes(diff: Seq<char>) -> Seq<FileChange> {
    let lines = lines_from(diff, 0);
    with_current(after_lines(lines, lines.len() as int))
}

/// The changes of a list.
pub open spec fn change_views(v: Seq<FileLineRanges>) -> Seq<FileChange> {
    v.map_values(|c: FileLineRanges| c@)
}

/// The characters between two places, as a text.
fn text_between(s: &Vec<char>, from: usize, to: usize) -> (r: String)
    requires
        from <= to <= s@.len(),
    ensures
        r@ == s@.subrange(from as int, to as int),
{
    let mut r = String::new();
    let mut i: usize = from;
    assert(r@ =~= s@.subrange(from as int, from as int));
    while i < to
        invariant
            from <= i <= to <= s@.len(),
            r@ == s@.subrange(from as int, i as int),
        decreases to - i,
    {
        r.push(s[i]);
        i += 1;
        assert(r@ =~= s@.subrange(from as int, i as int));
    }
    r
}

/// The lines of a text.
pub fn lines_of(s: &str) -> (r: Vec<Vec<char>>)
    ensures
        line_views(r@) == lines_from(s@, 0),
{
    let all = chars_of(s);
    let ghost text = s@;
    let mut r: Vec<Vec<char>> = Vec::new();
    let mut at: usize = 0;
    assert(line_views(r@) + lines_from(text, 0) =~= lines_from(text, 0));
    while at < all.len()
        invariant
            at <= all.len(),
            all@ == text,
            text == s@,
            line_views(r@) + lines_from(text, at as int) == lines_from(text, 0),
        decreases all.len() - at,
    {
        let mut end: usize = at;
        while end < all.len() && all[end] != '\n'
            invariant
                at <= end <= all.len(),
                all@ == text,
                line_end(text, at as int) == line_end(text, end as int),
            decreases all.len() - end,
        {
            end += 1;
        }
        let stop: usize = if end < all.len() && end > at && all[end - 1] == '\r' {
            end - 1
        } else {
            end
        };
        let mut line: Vec<char> = Vec::new();
        let mut i: usize = at;
        assert(line@ =~= text.subrange(at as int, at as int));
        while i < stop
            invariant
                at <= i <= stop <= all.len(),
                all@ == text,
                line@ == text.subrange(at as int, i as int),
            decreases stop - i,
        {
            line.push(all[i]);
            i += 1;
            assert(line@ =~= text.subrange(at as int, i as int));
        }
        let ghost before = r@;
        let ghost shown = line@;
        r.push(line);
        proof {
            assert(shown == line_text(text, at as int, end as int));
            assert(line_views(r@) =~= line_views(before).push(shown));
            assert(line_views(r@) + lines_from(text, end + 1) =~= line_views(before)
                + lines_from(text, at as int));
        }
        if end == all.len() {
            assert(lines_from(text, end + 1) =~= Seq::empty());
            assert(line_views(r@) =~= lines_from(text, 0));
            return r;
        }
        at = end + 1;
    }
    assert(line_views(r@) =~= lines_from(text, 0));
    r
}

/// The lines as sequences.
pub open spec fn line_views(v: Seq<Vec<char>>) -> Seq<Seq<char>> {
    v.map_values(|l: Vec<char>| l@)
}

/// Parses a diff without context lines into the changed lines of each file on the new
/// side. A header that cannot be read is skipped.
pub fn parse_diff(diff: &str) -> (r: Vec<FileLineRanges>)
    ensures
        change_views(r@) == diff_changes(diff@),
{
    let lines = lines_of(diff);
    let ghost all = lines_from(diff@, 0);
    let file_marker = chars_of("+++ ");
    let new_side = chars_of("b/");
    let gone = chars_of("/dev/null");
    proof {
        reveal_strlit("+++ ");
        reveal_strlit("b/");
        reveal_strlit("@@ ");
    }
    let mut files: Vec<FileLineRanges> = Vec::new();
    let mut current: Option<FileLineRanges> = None;
    let mut i: usize = 0;
    assert(change_views(files@) =~= Seq::empty());
    while i < lines.len()
        invariant
            i <= lines.len(),
            all == line_views(lines@),
            file_marker@ == "+++ "@,
            file_marker@.len() == 4,
            new_side@ == "b/"@,
            new_side@.len() == 2,
            gone@ == "/dev/null"@,
            change_views(files@) == after_lines(all, i as int).done,
            match current {
                Some(c) => after_lines(all, i as int).current == Some(c@),
                None => after_lines(all, i as int).current is None,
            },
        decreases lines.len() - i,
    {
        let line = &lines[i];
        let ghost state = after_lines(all, i as int);
        assert(all[i as int] == line@);
        if occurs(line, &file_marker, 0) {
            assert(line@.take(4) =~= line@.subrange(0, 4));
            let ghost path = line@.skip(4);
            match current {
                Some(finished) => {
                    let ghost before = files@;
                    let ghost done = finished@;
                    files.push(finished);
                    assert(change_views(files@) =~= change_views(before).push(done));
                },
                None => {},
            }
            let deleted = line.len() - 4 == gone.len() && occurs(line, &gone, 4);
            proof {
                if deleted {
                    assert(line@.subrange(4, (4 + gone@.len()) as int) =~= path);
                }
                if path == "/dev/null"@ {
                    assert(line@.subrange(4, (4 + gone@.len()) as int) =~= path);
                }
            }
            if deleted {
                current = None;
            } else {
                let start: usize = if occurs(line, &new_side, 4) {
                    assert(path.take(2) =~= line@.subrange(4, 6));
                    6
                } else {
                    proof {
                        if begins_with(path, "b/"@) {
                            assert(path.take(2) =~= line@.subrange(4, 6));
                        }
                    }
                    4
                };
                let name = text_between(line, start, line.len());
                assert(name@ =~= named_file(line@)->0);
                let change = FileLineRanges { path: name, ranges: Vec::new() };
                assert(change@.ranges =~= Seq::empty());
                current = Some(change);
            }
        } else {
            proof {
                if begins_with(line@, "+++ "@) {
                    assert(line@.take(4) =~= line@.subrange(0, 4));
                }
            }
            let range = parse_header(line);
            match current {
                Some(mut change) => {
                    match range {
                        Some(range) => change.ranges.push(range),
                        None => {},
                    }
                    current = Some(change);
                },
                None => {},
            }
        }
        i += 1;
    }
    match current {
        Some(finished) => {
            let ghost before = files@;
            let ghost done = finished@;
            files.push(finished);
            assert(change_views(files@) =~= change_views(before).push(done));
        },
        None => {},
    }
    files
}

/// The places at which the lines of the first `n` bytes begin.
pub open spec fn starts_of(b: Seq<u8>, n: int) -> Seq<usize>
    decreases n,
{
    if n <= 0 {
        seq![0usize]
    } else if b[n - 1] == 10 {
        starts_of(b, n - 1).push(n as usize)
    } else {
        starts_of(b, n - 1)
    }
}

/// The places of the bytes at which the lines of a source begin.
pub fn line_starts(source: &str) -> (r: Vec<usize>)
    ensures
        r@ == starts_of(encode_utf8(source@), encode_utf8(source@).len() as int),
{
    let bytes = source.as_bytes();
    let mut starts: Vec<usize> = Vec::new();
    starts.push(0);
    let mut offset: usize = 0;
    assert(starts@ =~= starts_of(bytes@, 0));
    while offset < bytes.len()
        invariant
            offset <= bytes.len(),
            starts@ == starts_of(bytes@, offset as int),
        decreases bytes.len() - offset,
    {
        if bytes[offset] == 10 {
            starts.push(offset + 1);
        }
        offset += 1;
    }
    starts
}

/// The bytes of a range of lines that count from one: from the start of the first to
/// the start of the line at the end, or to the end of the source. A range that begins
/// behind the last line covers nothing.
pub open spec fn byte_range(
    starts: Seq<usize>,
    total_len: usize,
    start_line: u32,
    end_line: u32,
) -> Option<(usize, usize)> {
    if start_line == 0 || start_line > starts.len() {
        None
    } else {
        let start = if starts[start_line - 1] < total_len {
            starts[start_line - 1]
        } else {
            total_len
        };
        let last: int = if end_line == 0 {
            0
        } else {
            end_line - 1
        };
        let end = if last < starts.len() {
            starts[last]
        } else {
            total_len
        };
        Some(
            (
                start,
                if end > start {
                    end
                } else {
                    start
                },
            ),
        )
    }
}

/// The bytes of a range of lines.
pub fn line_range_to_byte_range(
    line_starts: &Vec<usize>,
    total_len: usize,
    start_line: u32,
    end_line: u32,
) -> (r: Option<(usize, usize)>)
    ensures
        r == byte_range(line_starts@, total_len, start_line, end_line),
{
    if start_line == 0 || (start_line - 1) as usize >= line_starts.len() {
        return None;
    }
    let start_index: usize = (start_line - 1) as usize;
    let start: usize = if line_starts[start_index] < total_len {
        line_starts[start_index]
    } else {
        total_len
    };
    let end_index: usize = if end_line == 0 {
        0
    } else {
        (end_line - 1) as usize
    };
    let end: usize = if end_index < line_starts.len() {
        line_starts[end_index]
    } else {
        total_len
    };
    Some(
        (
            start,
            if end > start {
                end
            } else {
                start
            },
        ),
    )
}

/// The span and the range, both without their ends, have a byte in common.
pub open spec fn overlaps(span: ByteSpan, start: usize, end: usize) -> bool {
    span.start < end && start < span.end
}

/// Tells whether a span and a range overlap.
pub fn byte_ranges_overlap(span: ByteSpan, changed_start: usize, changed_end: usize) -> (r: bool)
    ensures
        r == overlaps(span, changed_start, changed_end),
{
    span.start < changed_end && changed_start < span.end
}

/// The byte lies in the range.
pub open spec fn lies_in(b: int, start: usize, end: usize) -> bool {
    start <= b < end
}

/// Two nonempty ranges overlap exactly when some byte lies in both.
pub proof fn overlap_is_a_common_byte(span: ByteSpan, start: usize, end: usize)
    requires
        span.start < span.end,
        start < end,
    ensures
        overlaps(span, start, end) <==> exists|b: int| #[trigger]
            lies_in(b, span.start, span.end) && lies_in(b, start, end),
        overlaps(span, start, end) == overlaps(
            ByteSpan { start, end },
            span.start,
            span.end,
        ),
{
    if overlaps(span, start, end) {
        let b: int = if span.start < start {
            start as int
        } else {
            span.start as int
        };
        assert(lies_in(b, span.start, span.end) && lies_in(b, start, end));
    }
}

/// The bytes of a changed range lie within the source, whatever the diff said.
pub proof fn changed_bytes_lie_in_the_source(
    b: Seq<u8>,
    total_len: usize,
    start_line: u32,
    end_line: u32,
)
    requires
        total_len == b.len(),
    ensures
        byte_range(starts_of(b, b.len() as int), total_len, start_line, end_line) matches Some((
            start,
            end,
        )) ==> start <= end <= total_len,
{
    lemma_starts_bounded(b, b.len() as int);
}

pub(crate) proof fn lemma_starts_bounded(b: Seq<u8>, n: int)
    requires
        0 <= n <= b.len() <= usize::MAX,
    ensures
        starts_of(b, n).len() > 0,
        forall|i: int| 0 <= i < starts_of(b, n).len() ==> #[trigger] starts_of(b, n)[i] <= n,
    decreases n,
{
    if n > 0 {
        lemma_starts_bounded(b, n - 1);
    }
}

} // verus!
