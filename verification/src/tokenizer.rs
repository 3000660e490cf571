//! Splits code identifiers into searchable subwords.
//!
//! Handles camelCase, PascalCase, snake_case, SCREAMING_SNAKE_CASE,
//! and acronym boundaries (`HTMLParser` gives `html parser`).
//! Returns lowercased space-separated subwords plus the original name
//! lowercased, when that differs from the joined subwords.

use vstd::prelude::*;

use crate::strutil::{is_ascii_lower, is_ascii_upper, lower_char, lower_chars};
use crate::strutil::{ascii_lower, lowercase};

verus! {

/// A word separator inside an identifier.
pub open spec fn is_separator(c: char) -> bool {
    c == '_' || c == '-' || c == '.' || c == ' '
}

/// Appends the word in progress to the finished words, unless it is empty.
pub open spec fn flushed(words: Seq<Seq<char>>, cur: Seq<char>) -> Seq<Seq<char>> {
    if cur.len() == 0 {
        words
    } else {
        words.push(cur)
    }
}

/// One step of the splitter: consumes `c`, knowing whether the characters
/// beside it are lower-case letters.
pub open spec fn token_step(
    words: Seq<Seq<char>>,
    cur: Seq<char>,
    c: char,
    prev_lower: bool,
    next_lower: bool,
) -> (Seq<Seq<char>>, Seq<char>) {
    if is_separator(c) {
        (flushed(words, cur), Seq::<char>::empty())
    } else if is_ascii_upper(c) && cur.len() > 0 && (prev_lower || next_lower) {
        (words.push(cur), seq![lower_char(c)])
    } else {
        (words, cur.push(lower_char(c)))
    }
}

/// The splitter's state after consuming the first `i` characters.
pub open spec fn token_state(chars: Seq<char>, i: int) -> (Seq<Seq<char>>, Seq<char>)
    decreases i,
{
    if i <= 0 {
        (Seq::<Seq<char>>::empty(), Seq::<char>::empty())
    } else {
        let st = token_state(chars, i - 1);
        token_step(
            st.0,
            st.1,
            chars[i - 1],
            i - 2 >= 0 && is_ascii_lower(chars[i - 2]),
            i < chars.len() && is_ascii_lower(chars[i]),
        )
    }
}

/// The subwords of an identifier, lowercased, in order.
pub open spec fn spec_words(chars: Seq<char>) -> Seq<Seq<char>> {
    let st = token_state(chars, chars.len() as int);
    flushed(st.0, st.1)
}

/// Words joined with single spaces.
pub open spec fn join_spaces(words: Seq<Seq<char>>) -> Seq<char>
    decreases words.len(),
{
    if words.len() == 0 {
        Seq::<char>::empty()
    } else if words.len() == 1 {
        words[0]
    } else {
        join_spaces(words.drop_last()) + seq![' '] + words.last()
    }
}

/// What `split_code_identifier` returns: the joined subwords, followed by the
/// lowercased original name when that differs from the joined subwords.
pub open spec fn spec_tokenize(chars: Seq<char>) -> Seq<char> {
    let words = spec_words(chars);
    if words.len() == 0 {
        lower_chars(chars)
    } else {
        let joined = join_spaces(words);
        if joined == lower_chars(chars) {
            joined
        } else {
            joined + seq![' '] + lower_chars(chars)
        }
    }
}

/// Every subword stands in the output, in order, separated by spaces: the
/// output either is the joined subwords or extends them by a space and the
/// lowercased original. Re-tokenizing is deterministic by construction.
pub proof fn lemma_tokenize_contains_words(chars: Seq<char>)
    requires
        spec_words(chars).len() > 0,
    ensures
        spec_tokenize(chars) == join_spaces(spec_words(chars)) || spec_tokenize(chars)
            == join_spaces(spec_words(chars)) + seq![' '] + lower_chars(chars),
{
}

fn is_lower_at(s: &str, i: usize) -> (r: bool)
    requires
        i < s@.len(),
    ensures
        r == is_ascii_lower(s@[i as int]),
{
    let c = s.get_char(i);
    'a' <= c && c <= 'z'
}

/// Splits a code identifier into lowercased space-separated subwords, with
/// the lowercased original appended when it differs from the joined subwords.
///
/// Example: `getUserById` gives `get user by id getuserbyid`.
pub fn split_code_identifier(name: &str) -> (r: String)
    ensures
        r@ == spec_tokenize(name@),
{
    let n = name.unicode_len();
    let mut words: Vec<String> = Vec::new();
    let mut cur = String::new();

    let mut i: usize = 0;
    while i < n
        invariant
            n == name@.len(),
            i <= n,
            words.deep_view() == token_state(name@, i as int).0,
            cur@ == token_state(name@, i as int).1,
        decreases n - i,
    {
        let c = name.get_char(i);
        let prev_lower = i > 0 && is_lower_at(name, i - 1);
        let next_lower = i + 1 < n && is_lower_at(name, i + 1);
        if c == '_' || c == '-' || c == '.' || c == ' ' {
            if !cur.as_str().is_empty() {
                words.push(cur.clone());
                cur = String::new();
            }
        } else {
            if ('A' <= c && c <= 'Z') && !cur.as_str().is_empty() && (prev_lower || next_lower) {
                words.push(cur.clone());
                cur = String::new();
            }
            cur.push(ascii_lower(c));
        }
        proof {
            assert(words.deep_view() =~= token_state(name@, i + 1).0);
        }
        i = i + 1;
    }
    if !cur.as_str().is_empty() {
        words.push(cur.clone());
        proof {
            assert(words.deep_view() =~= flushed(token_state(name@, n as int).0, cur@));
        }
    }
    proof {
        assert(words.deep_view() == spec_words(name@));
    }

    let lowered = lowercase(name);

    if words.len() == 0 {
        return lowered;
    }

    let mut joined: String = words[0].clone();
    let mut j: usize = 1;
    while j < words.len()
        invariant
            1 <= j <= words.len(),
            words.deep_view() == spec_words(name@),
            spec_words(name@).len() == words.len(),
            joined@ == join_spaces(words.deep_view().take(j as int)),
        decreases words.len() - j,
    {
        joined.push(' ');
        joined.append(words[j].as_str());
        proof {
            let ws = words.deep_view();
            assert(ws.take(j + 1).drop_last() =~= ws.take(j as int));
            assert(ws.take(j + 1).last() == ws[j as int]);
            assert(join_spaces(ws.take(j + 1)) == join_spaces(ws.take(j as int)) + seq![' ']
                + ws[j as int]);
        }
        j = j + 1;
    }
    proof {
        assert(words.deep_view().take(words.len() as int) =~= words.deep_view());
    }

    if joined == lowered {
        joined
    } else {
        let mut out = joined;
        out.push(' ');
        out.append(lowered.as_str());
        out
    }
}

} // verus!
