//! Small string building blocks shared by the whole crate.

use vstd::prelude::*;

verus! {

/// Relies on std's `String::push`: appends one character at the end.
pub assume_specification[ String::push ](s: &mut String, c: char)
    ensures
        final(s)@ == old(s)@.push(c),
;

/// One character of ASCII: an upper-case letter.
pub open spec fn is_ascii_upper(c: char) -> bool {
    'A' <= c && c <= 'Z'
}

/// One character of ASCII: a lower-case letter.
pub open spec fn is_ascii_lower(c: char) -> bool {
    'a' <= c && c <= 'z'
}

/// ASCII lowercasing of a single character; anything outside `A..Z` is kept.
pub open spec fn lower_char(c: char) -> char {
    if is_ascii_upper(c) {
        (((c as u8) + 32) as char)
    } else {
        c
    }
}

/// ASCII lowercasing of a whole character sequence.
pub open spec fn lower_chars(s: Seq<char>) -> Seq<char> {
    s.map_values(|c: char| lower_char(c))
}

pub fn ascii_lower(c: char) -> (r: char)
    ensures
        r == lower_char(c),
{
    if 'A' <= c && c <= 'Z' {
        ((c as u8) + 32) as char
    } else {
        c
    }
}

/// ASCII-lowercases a string character by character.
pub fn lowercase(s: &str) -> (r: String)
    ensures
        r@ == lower_chars(s@),
{
    let n = s.unicode_len();
    let mut out = String::new();
    let mut i: usize = 0;
    while i < n
        invariant
            n == s@.len(),
            i <= n,
            out@ == lower_chars(s@.take(i as int)),
        decreases n - i,
    {
        let c = s.get_char(i);
        out.push(ascii_lower(c));
        proof {
            assert(lower_chars(s@.take(i + 1 as int)) == lower_chars(s@.take(i as int)).push(
                lower_char(s@[i as int]),
            )) by {
                assert(s@.take(i + 1 as int).map_values(|c: char| lower_char(c)) =~= s@.take(
                    i as int,
                ).map_values(|c: char| lower_char(c)).push(lower_char(s@[i as int])));
            }
        }
        i = i + 1;
    }
    proof {
        assert(s@.take(n as int) =~= s@);
    }
    out
}

/// Character-wise equality of two strings.
pub fn str_eq(a: &str, b: &str) -> (r: bool)
    ensures
        r == (a@ == b@),
{
    let n = a.unicode_len();
    let m = b.unicode_len();
    if n != m {
        proof {
            assert(a@.len() != b@.len());
        }
        return false;
    }
    let mut i: usize = 0;
    while i < n
        invariant
            n == a@.len(),
            n == b@.len(),
            i <= n,
            forall|k: int| 0 <= k < i ==> a@[k] == b@[k],
        decreases n - i,
    {
        if a.get_char(i) != b.get_char(i) {
            return false;
        }
        i = i + 1;
    }
    proof {
        assert(a@ =~= b@);
    }
    true
}

/// `s` ends with `suffix`.
pub open spec fn spec_ends_with(s: Seq<char>, suffix: Seq<char>) -> bool {
    s.len() >= suffix.len() && s.subrange(s.len() - suffix.len(), s.len() as int) == suffix
}

/// `s` starts with `prefix`.
pub open spec fn spec_starts_with(s: Seq<char>, prefix: Seq<char>) -> bool {
    s.len() >= prefix.len() && s.subrange(0, prefix.len() as int) == prefix
}

/// `sub` occurs somewhere in `s`.
pub open spec fn spec_contains_sub(s: Seq<char>, sub: Seq<char>) -> bool {
    exists|i: int| 0 <= i && i + sub.len() <= s.len() && #[trigger] s.subrange(i, i + sub.len())
        == sub
}

pub fn str_ends_with(s: &str, suffix: &str) -> (r: bool)
    ensures
        r == spec_ends_with(s@, suffix@),
{
    let n = s.unicode_len();
    let m = suffix.unicode_len();
    if m > n {
        return false;
    }
    let off = n - m;
    let mut i: usize = 0;
    while i < m
        invariant
            n == s@.len(),
            m == suffix@.len(),
            off == n - m,
            m <= n,
            i <= m,
            forall|k: int| 0 <= k < i ==> s@[off + k] == suffix@[k],
        decreases m - i,
    {
        if s.get_char(off + i) != suffix.get_char(i) {
            proof {
                assert(s@.subrange(n - m, n as int)[i as int] != suffix@[i as int]);
            }
            return false;
        }
        i = i + 1;
    }
    proof {
        assert(s@.subrange(n - m, n as int) =~= suffix@);
    }
    true
}

pub fn str_starts_with(s: &str, prefix: &str) -> (r: bool)
    ensures
        r == spec_starts_with(s@, prefix@),
{
    let n = s.unicode_len();
    let m = prefix.unicode_len();
    if m > n {
        return false;
    }
    let mut i: usize = 0;
    while i < m
        invariant
            n == s@.len(),
            m == prefix@.len(),
            m <= n,
            i <= m,
            forall|k: int| 0 <= k < i ==> s@[k] == prefix@[k],
        decreases m - i,
    {
        if s.get_char(i) != prefix.get_char(i) {
            proof {
                assert(s@.subrange(0, m as int)[i as int] != prefix@[i as int]);
            }
            return false;
        }
        i = i + 1;
    }
    proof {
        assert(s@.subrange(0, m as int) =~= prefix@);
    }
    true
}

fn matches_at(s: &str, sub: &str, off: usize) -> (r: bool)
    requires
        off + sub@.len() <= s@.len(),
        s@.len() <= usize::MAX,
    ensures
        r == (s@.subrange(off as int, off + sub@.len()) == sub@),
{
    let m = sub.unicode_len();
    let mut i: usize = 0;
    while i < m
        invariant
            m == sub@.len(),
            off + m <= s@.len(),
            s@.len() <= usize::MAX,
            i <= m,
            forall|k: int| 0 <= k < i ==> s@[off + k] == sub@[k],
        decreases m - i,
    {
        if s.get_char(off + i) != sub.get_char(i) {
            proof {
                assert(s@.subrange(off as int, off + sub@.len())[i as int] != sub@[i as int]);
            }
            return false;
        }
        i = i + 1;
    }
    proof {
        assert(s@.subrange(off as int, off + sub@.len()) =~= sub@);
    }
    true
}

pub fn str_contains(s: &str, sub: &str) -> (r: bool)
    ensures
        r == spec_contains_sub(s@, sub@),
{
    let n = s.unicode_len();
    let m = sub.unicode_len();
    if m > n {
        return false;
    }
    if m == 0 {
        proof {
            assert(s@.subrange(0, 0 + sub@.len() as int) =~= sub@);
            assert(spec_contains_sub(s@, sub@));
        }
        return true;
    }
    let mut i: usize = 0;
    while i <= n - m
        invariant
            n == s@.len(),
            m == sub@.len(),
            0 < m <= n,
            i <= n - m + 1,
            forall|k: int| 0 <= k < i ==> #[trigger] s@.subrange(k, k + sub@.len()) != sub@,
        decreases n + 1 - m - i,
    {
        if matches_at(s, sub, i) {
            return true;
        }
        i = i + 1;
    }
    false
}

/// An ASCII whitespace character.
pub open spec fn is_space(c: char) -> bool {
    c == ' ' || c == '\t' || c == '\n' || c == '\r'
}

/// The first index at or after `i` whose character fails `keep_going`; here
/// specialised to whitespace scanning from the left.
pub open spec fn first_non_space(s: Seq<char>, i: int) -> int
    decreases s.len() - i,
{
    if !(0 <= i < s.len()) {
        s.len() as int
    } else if is_space(s[i]) {
        first_non_space(s, i + 1)
    } else {
        i
    }
}

/// The end (exclusive) of the last non-whitespace character at or before `i`.
pub open spec fn last_non_space_end(s: Seq<char>, i: int) -> int
    decreases i,
{
    if i <= 0 {
        0
    } else if is_space(s[i - 1]) {
        last_non_space_end(s, i - 1)
    } else {
        i
    }
}

/// `s` with ASCII whitespace removed from both ends.
pub open spec fn spec_trim(s: Seq<char>) -> Seq<char> {
    let a = first_non_space(s, 0);
    if a == s.len() {
        Seq::<char>::empty()
    } else {
        s.subrange(a, last_non_space_end(s, s.len() as int))
    }
}

proof fn lemma_first_non_space_bounds(s: Seq<char>, i: int)
    requires
        0 <= i <= s.len(),
    ensures
        i <= first_non_space(s, i) <= s.len(),
    decreases s.len() - i,
{
    if i < s.len() && is_space(s[i]) {
        lemma_first_non_space_bounds(s, i + 1);
    }
}

proof fn lemma_last_non_space_bounds(s: Seq<char>, i: int)
    requires
        0 <= i <= s.len(),
    ensures
        0 <= last_non_space_end(s, i) <= i,
    decreases i,
{
    if i > 0 && is_space(s[i - 1]) {
        lemma_last_non_space_bounds(s, i - 1);
    }
}

/// Removes ASCII whitespace from both ends of a string.
pub fn trim(s: &str) -> (r: String)
    ensures
        r@ == spec_trim(s@),
{
    let n = s.unicode_len();
    let mut a: usize = 0;
    while a < n && is_space_char(s.get_char(a))
        invariant
            n == s@.len(),
            0 <= a <= n,
            first_non_space(s@, 0) == first_non_space(s@, a as int),
        decreases n - a,
    {
        a = a + 1;
    }
    if a == n {
        return String::new();
    }
    let mut b: usize = n;
    while b > a && is_space_char(s.get_char(b - 1))
        invariant
            n == s@.len(),
            a < n,
            a < b <= n,
            !is_space(s@[a as int]),
            last_non_space_end(s@, n as int) == last_non_space_end(s@, b as int),
        decreases b,
    {
        b = b - 1;
    }
    proof {
        assert(last_non_space_end(s@, b as int) == b);
    }
    s.substring_char(a, b).to_owned()
}

fn is_space_char(c: char) -> (r: bool)
    ensures
        r == is_space(c),
{
    c == ' ' || c == '\t' || c == '\n' || c == '\r'
}

/// The first index at or after `i` that does not hold the character `c`.
pub open spec fn first_not_char(s: Seq<char>, c: char, i: int) -> int
    decreases s.len() - i,
{
    if !(0 <= i < s.len()) {
        s.len() as int
    } else if s[i] == c {
        first_not_char(s, c, i + 1)
    } else {
        i
    }
}

proof fn lemma_first_not_char_bounds(s: Seq<char>, c: char, i: int)
    requires
        0 <= i <= s.len(),
    ensures
        i <= first_not_char(s, c, i) <= s.len(),
    decreases s.len() - i,
{
    if i < s.len() && s[i] == c {
        lemma_first_not_char_bounds(s, c, i + 1);
    }
}

/// `s` with every leading repetition of `c` removed.
pub open spec fn spec_strip_leading(s: Seq<char>, c: char) -> Seq<char> {
    s.subrange(first_not_char(s, c, 0), s.len() as int)
}

/// Stripping leading characters never lengthens a string.
pub proof fn lemma_strip_leading_len(s: Seq<char>, c: char)
    ensures
        spec_strip_leading(s, c).len() <= s.len(),
{
    lemma_first_not_char_bounds(s, c, 0);
}

/// The end (exclusive) of the last character at or before `i` that is not
/// `c`.
pub open spec fn last_not_char_end(s: Seq<char>, c: char, i: int) -> int
    decreases i,
{
    if i <= 0 {
        0
    } else if s[i - 1] == c {
        last_not_char_end(s, c, i - 1)
    } else {
        i
    }
}

/// `s` with every trailing repetition of `c` removed.
pub open spec fn spec_strip_trailing(s: Seq<char>, c: char) -> Seq<char> {
    s.subrange(0, last_not_char_end(s, c, s.len() as int))
}

proof fn lemma_last_not_char_bounds(s: Seq<char>, c: char, i: int)
    requires
        0 <= i <= s.len(),
    ensures
        0 <= last_not_char_end(s, c, i) <= i,
    decreases i,
{
    if i > 0 && s[i - 1] == c {
        lemma_last_not_char_bounds(s, c, i - 1);
    }
}

/// Removes every trailing repetition of `c` from the string.
pub fn strip_trailing(s: &str, c: char) -> (r: String)
    ensures
        r@ == spec_strip_trailing(s@, c),
{
    let n = s.unicode_len();
    let mut b: usize = n;
    while b > 0 && s.get_char(b - 1) == c
        invariant
            n == s@.len(),
            0 <= b <= n,
            last_not_char_end(s@, c, n as int) == last_not_char_end(s@, c, b as int),
        decreases b,
    {
        b = b - 1;
    }
    s.substring_char(0, b).to_owned()
}

/// `s` with every leading and trailing repetition of `c` removed, as
/// `str::trim_matches` with a single-character pattern leaves it.
pub open spec fn spec_strip_matches(s: Seq<char>, c: char) -> Seq<char> {
    spec_strip_trailing(spec_strip_leading(s, c), c)
}

/// Removes every leading and trailing repetition of `c`.
pub fn strip_matches(s: &str, c: char) -> (r: String)
    ensures
        r@ == spec_strip_matches(s@, c),
{
    let led = strip_leading(s, c);
    strip_trailing(led.as_str(), c)
}

/// Removes every leading repetition of `c` from the string.
pub fn strip_leading(s: &str, c: char) -> (r: String)
    ensures
        r@ == spec_strip_leading(s@, c),
{
    let n = s.unicode_len();
    let mut a: usize = 0;
    while a < n && s.get_char(a) == c
        invariant
            n == s@.len(),
            0 <= a <= n,
            first_not_char(s@, c, 0) == first_not_char(s@, c, a as int),
        decreases n - a,
    {
        a = a + 1;
    }
    s.substring_char(a, n).to_owned()
}

/// The index of the first `c` at or after `i`, or the length when there is
/// none.
pub open spec fn find_char_from(s: Seq<char>, c: char, i: int) -> int
    decreases s.len() - i,
{
    if !(0 <= i < s.len()) {
        s.len() as int
    } else if s[i] == c {
        i
    } else {
        find_char_from(s, c, i + 1)
    }
}

pub proof fn lemma_find_char_bounds(s: Seq<char>, c: char, i: int)
    requires
        0 <= i <= s.len(),
    ensures
        i <= find_char_from(s, c, i) <= s.len(),
    decreases s.len() - i,
{
    if i < s.len() && s[i] != c {
        lemma_find_char_bounds(s, c, i + 1);
    }
}

/// One line as `str::lines` sees it: a trailing carriage return is dropped
/// from a segment that a line feed ended.
pub open spec fn line_segment(s: Seq<char>, i: int, j: int, terminated: bool) -> Seq<char> {
    let seg = s.subrange(i, j);
    if terminated && seg.len() > 0 && seg.last() == '\r' {
        seg.drop_last()
    } else {
        seg
    }
}

/// The lines of `s` from index `i` on, split at line feeds.
pub open spec fn spec_lines_from(s: Seq<char>, i: int) -> Seq<Seq<char>>
    decreases s.len() - i,
    via spec_lines_from_decreases
{
    if !(0 <= i < s.len()) {
        Seq::<Seq<char>>::empty()
    } else {
        let j = find_char_from(s, '\n', i);
        if j >= s.len() {
            seq![line_segment(s, i, s.len() as int, false)]
        } else {
            seq![line_segment(s, i, j, true)] + spec_lines_from(s, j + 1)
        }
    }
}

#[via_fn]
proof fn spec_lines_from_decreases(s: Seq<char>, i: int) {
    if 0 <= i < s.len() {
        lemma_find_char_bounds(s, '\n', i);
    }
}

/// The lines of `s`, as `str::lines` yields them.
pub open spec fn spec_lines(s: Seq<char>) -> Seq<Seq<char>> {
    spec_lines_from(s, 0)
}

/// Splits a string into its lines.
pub fn split_lines(s: &str) -> (r: Vec<String>)
    ensures
        r.deep_view() == spec_lines(s@),
{
    let n = s.unicode_len();
    let mut out: Vec<String> = Vec::new();
    split_lines_into(s, 0, &mut out);
    proof {
        assert(out.deep_view() =~= Seq::<Seq<char>>::empty() + spec_lines_from(s@, 0));
    }
    out
}

fn split_lines_into(s: &str, i: usize, out: &mut Vec<String>)
    requires
        i <= s@.len(),
        s@.len() <= usize::MAX,
    ensures
        final(out).deep_view() == old(out).deep_view() + spec_lines_from(s@, i as int),
    decreases s@.len() - i,
{
    let n = s.unicode_len();
    if i >= n {
        proof {
            assert(final(out).deep_view() =~= old(out).deep_view() + spec_lines_from(
                s@,
                i as int,
            ));
        }
        return;
    }
    proof {
        lemma_find_char_bounds(s@, '\n', i as int);
    }
    let mut j: usize = i;
    while j < n && s.get_char(j) != '\n'
        invariant
            n == s@.len(),
            i <= j <= n,
            find_char_from(s@, '\n', i as int) == find_char_from(s@, '\n', j as int),
        decreases n - j,
    {
        j = j + 1;
    }
    proof {
        assert(j == find_char_from(s@, '\n', i as int));
    }
    let terminated = j < n;
    let mut end = j;
    if terminated && end > i && s.get_char(end - 1) == '\r' {
        end = end - 1;
    }
    let seg = s.substring_char(i, end).to_owned();
    proof {
        if terminated {
            if end < j {
                assert(s@.subrange(i as int, j as int).last() == '\r');
                assert(s@.subrange(i as int, end as int) =~= s@.subrange(
                    i as int,
                    j as int,
                ).drop_last());
            } else {
                assert(s@.subrange(i as int, j as int).len() == 0 || s@.subrange(
                    i as int,
                    j as int,
                ).last() != '\r');
            }
        }
        assert(seg@ == line_segment(s@, i as int, j as int, terminated));
    }
    out.push(seg);
    if terminated {
        let ghost mid = out.deep_view();
        split_lines_into(s, j + 1, out);
        proof {
            assert(final(out).deep_view() =~= old(out).deep_view() + spec_lines_from(
                s@,
                i as int,
            ));
        }
    } else {
        proof {
            assert(final(out).deep_view() =~= old(out).deep_view() + spec_lines_from(
                s@,
                i as int,
            ));
        }
    }
}

/// Non-empty entries joined with the separator character.
pub open spec fn spec_join_char(parts: Seq<Seq<char>>, sep: char) -> Seq<char>
    decreases parts.len(),
{
    if parts.len() == 0 {
        Seq::<char>::empty()
    } else if parts.len() == 1 {
        parts[0]
    } else {
        spec_join_char(parts.drop_last(), sep) + seq![sep] + parts.last()
    }
}

/// Joins strings with a separator character.
pub fn join_char(parts: &Vec<String>, sep: char) -> (r: String)
    ensures
        r@ == spec_join_char(parts.deep_view(), sep),
{
    if parts.len() == 0 {
        return String::new();
    }
    let mut out: String = parts[0].clone();
    let mut j: usize = 1;
    while j < parts.len()
        invariant
            1 <= j <= parts@.len(),
            out@ == spec_join_char(parts.deep_view().take(j as int), sep),
            parts.deep_view().len() == parts@.len(),
        decreases parts@.len() - j,
    {
        out.push(sep);
        out.append(parts[j].as_str());
        proof {
            let ws = parts.deep_view();
            assert(ws.take(j + 1).drop_last() =~= ws.take(j as int));
            assert(ws.take(j + 1).last() == ws[j as int]);
        }
        j = j + 1;
    }
    proof {
        assert(parts.deep_view().take(parts@.len() as int) =~= parts.deep_view());
    }
    out
}

/// The maximal runs of non-`c` characters at or after `i`: the tokens of a
/// `c`-separated string.
pub open spec fn spec_tokens_from(s: Seq<char>, c: char, i: int) -> Seq<Seq<char>>
    decreases s.len() - i,
    via spec_tokens_from_decreases
{
    if !(0 <= i < s.len()) {
        Seq::<Seq<char>>::empty()
    } else if s[i] == c {
        spec_tokens_from(s, c, i + 1)
    } else {
        let j = find_char_from(s, c, i);
        seq![s.subrange(i, j)] + spec_tokens_from(s, c, j)
    }
}

#[via_fn]
proof fn spec_tokens_from_decreases(s: Seq<char>, c: char, i: int) {
    if 0 <= i < s.len() && s[i] != c {
        lemma_find_char_bounds(s, c, i + 1);
        assert(find_char_from(s, c, i) > i);
    }
}

/// The tokens of a `c`-separated string, in order, empties skipped.
pub open spec fn spec_tokens(s: Seq<char>, c: char) -> Seq<Seq<char>> {
    spec_tokens_from(s, c, 0)
}

fn tokens_into(s: &str, c: char, i: usize, out: &mut Vec<String>)
    requires
        i <= s@.len(),
        s@.len() <= usize::MAX,
    ensures
        final(out).deep_view() == old(out).deep_view() + spec_tokens_from(s@, c, i as int),
    decreases s@.len() - i,
{
    let n = s.unicode_len();
    if i >= n {
        proof {
            assert(final(out).deep_view() =~= old(out).deep_view() + spec_tokens_from(
                s@,
                c,
                i as int,
            ));
        }
        return;
    }
    if s.get_char(i) == c {
        tokens_into(s, c, i + 1, out);
        return;
    }
    proof {
        lemma_find_char_bounds(s@, c, i as int + 1);
        assert(find_char_from(s@, c, i as int) > i);
    }
    let mut j: usize = i;
    while j < n && s.get_char(j) != c
        invariant
            n == s@.len(),
            i <= j <= n,
            find_char_from(s@, c, i as int) == find_char_from(s@, c, j as int),
        decreases n - j,
    {
        j = j + 1;
    }
    proof {
        assert(j == find_char_from(s@, c, i as int));
    }
    let seg = s.substring_char(i, j).to_owned();
    out.push(seg);
    tokens_into(s, c, j, out);
    proof {
        assert(final(out).deep_view() =~= old(out).deep_view() + spec_tokens_from(s@, c, i as int));
    }
}

/// Splits a string into its `c`-separated tokens, empties skipped.
pub fn tokens_of(s: &str, c: char) -> (r: Vec<String>)
    ensures
        r.deep_view() == spec_tokens(s@, c),
{
    let total = s.unicode_len();
    proof {
        assert(s@.len() == total);
    }
    let mut out: Vec<String> = Vec::new();
    tokens_into(s, c, 0, &mut out);
    proof {
        assert(out.deep_view() =~= Seq::<Seq<char>>::empty() + spec_tokens_from(s@, c, 0));
    }
    out
}

/// Lexicographic order on character sequences, compared from index `i` on.
pub open spec fn spec_str_le_from(a: Seq<char>, b: Seq<char>, i: int) -> bool
    decreases a.len() - i,
{
    if i >= a.len() {
        true
    } else if i >= b.len() {
        false
    } else if a[i] != b[i] {
        a[i] < b[i]
    } else {
        spec_str_le_from(a, b, i + 1)
    }
}

/// Lexicographic order on character sequences.
pub open spec fn spec_str_le(a: Seq<char>, b: Seq<char>) -> bool {
    spec_str_le_from(a, b, 0)
}

/// Lexicographic order is total.
pub proof fn lemma_str_le_total(a: Seq<char>, b: Seq<char>)
    ensures
        spec_str_le(a, b) || spec_str_le(b, a),
{
    lemma_str_le_total_from(a, b, 0);
}

proof fn lemma_str_le_total_from(a: Seq<char>, b: Seq<char>, i: int)
    requires
        0 <= i,
    ensures
        spec_str_le_from(a, b, i) || spec_str_le_from(b, a, i),
    decreases a.len() + b.len() - i,
{
    if i < a.len() && i < b.len() && a[i] == b[i] {
        lemma_str_le_total_from(a, b, i + 1);
    }
}

/// Compares two strings lexicographically by character code.
pub fn str_le(a: &str, b: &str) -> (r: bool)
    ensures
        r == spec_str_le(a@, b@),
{
    let n = a.unicode_len();
    let m = b.unicode_len();
    let mut i: usize = 0;
    loop
        invariant
            n == a@.len(),
            m == b@.len(),
            i <= n,
            i <= m,
            spec_str_le(a@, b@) == spec_str_le_from(a@, b@, i as int),
        decreases n - i,
    {
        if i >= n {
            return true;
        }
        if i >= m {
            return false;
        }
        let ca = a.get_char(i);
        let cb = b.get_char(i);
        if ca != cb {
            return ca < cb;
        }
        i = i + 1;
    }
}

/// Lexicographic order is transitive.
pub proof fn lemma_str_le_trans(a: Seq<char>, b: Seq<char>, c: Seq<char>)
    requires
        spec_str_le(a, b),
        spec_str_le(b, c),
    ensures
        spec_str_le(a, c),
{
    lemma_str_le_trans_from(a, b, c, 0);
}

proof fn lemma_str_le_trans_from(a: Seq<char>, b: Seq<char>, c: Seq<char>, i: int)
    requires
        0 <= i,
        spec_str_le_from(a, b, i),
        spec_str_le_from(b, c, i),
    ensures
        spec_str_le_from(a, c, i),
    decreases a.len() + b.len() + c.len() - i,
{
    if i < a.len() && i < b.len() && i < c.len() && a[i] == b[i] && b[i] == c[i] {
        lemma_str_le_trans_from(a, b, c, i + 1);
    }
}

/// Lexicographic order is antisymmetric.
pub proof fn lemma_str_le_antisym(a: Seq<char>, b: Seq<char>)
    requires
        spec_str_le(a, b),
        spec_str_le(b, a),
    ensures
        a == b,
{
    lemma_str_le_antisym_from(a, b, 0);
    assert(a =~= b);
}

proof fn lemma_str_le_antisym_from(a: Seq<char>, b: Seq<char>, i: int)
    requires
        0 <= i <= a.len(),
        0 <= i <= b.len(),
        spec_str_le_from(a, b, i),
        spec_str_le_from(b, a, i),
        forall|k: int| 0 <= k < i ==> a[k] == b[k],
    ensures
        a.len() == b.len(),
        forall|k: int| 0 <= k < a.len() ==> a[k] == b[k],
    decreases a.len() - i,
{
    if i < a.len() && i < b.len() && a[i] == b[i] {
        lemma_str_le_antisym_from(a, b, i + 1);
    }
}

} // verus!
