//! Scanners that look ahead in the text of a feeder without consuming it.
//! Positions are byte positions in the text that is left.

use crate::feeder::{index_at, is_boundary, lemma_index_at, lemma_offsets_grow, offset_of, Feeder};
use crate::text::{char_width, chars_of, contains_char};
use vstd::prelude::*;

verus! {

/// Whether the character `i` of the text is escaped when reading starts at
/// `start`: it follows a backslash that is not escaped itself.
pub open spec fn escaped_from(s: Seq<char>, start: int, i: int) -> bool
    decreases i - start,
{
    i > start && s[i - 1] == '\\' && !escaped_from(s, start, i - 1)
}

/// Whether a character can stand in the name of a variable.
pub open spec fn is_name_char(c: char) -> bool {
    ('0' <= c <= '9') || ('A' <= c <= 'Z') || ('a' <= c <= 'z') || c == '_'
}

/// Whether the character `i` makes a scan for `to` stop: it is one of `to`.
pub open spec fn stops_plain(s: Seq<char>, i: int, to: Seq<char>) -> bool {
    to.contains(s[i])
}

/// Whether the character `i` makes a scan for `to` that honours escapes
/// stop: it is one of `to`, it is no backslash, and it is not escaped.
pub open spec fn stops_escaped(s: Seq<char>, start: int, i: int, to: Seq<char>) -> bool {
    !escaped_from(s, start, i) && s[i] != '\\' && to.contains(s[i])
}

/// Whether a plain scan for `to` that starts at the character `start` ends
/// at the character `end`: `end` is the first character from `start` on that
/// is one of `to`, or the end of the text where there is none.
pub open spec fn plain_scan(s: Seq<char>, start: int, end: int, to: Seq<char>) -> bool {
    &&& start <= end <= s.len()
    &&& end < s.len() ==> stops_plain(s, end, to)
    &&& forall|j: int| start <= j < end ==> !#[trigger] stops_plain(s, j, to)
}

/// The same for a scan that honours escapes.
pub open spec fn escaped_scan(s: Seq<char>, start: int, end: int, to: Seq<char>) -> bool {
    &&& start <= end <= s.len()
    &&& end < s.len() ==> stops_escaped(s, start, end, to)
    &&& forall|j: int| start <= j < end ==> !#[trigger] stops_escaped(s, start, j, to)
}

/// Whether a scan for a name that starts at the character `start` ends at
/// `end`: `end` is the first character from `start` on that cannot stand in
/// a name, or the end of the text.
pub open spec fn name_scan(s: Seq<char>, start: int, end: int) -> bool {
    &&& start <= end <= s.len()
    &&& end < s.len() ==> !is_name_char(s[end])
    &&& forall|j: int| start <= j < end ==> is_name_char(#[trigger] s[j])
}

/// The byte position of the first character from `from` on that is one of
/// `to`, is no backslash and is not escaped by a backslash; the end of the
/// text where there is none.
pub fn scanner_escaped_string(text: &Feeder, from: usize, to: &str) -> (pos: usize)
    requires
        text.wf(),
        is_boundary(text@, from as int),
    ensures
        is_boundary(text@, pos as int),
        escaped_scan(text@, index_at(text@, from as int), index_at(text@, pos as int), to@),
{
    let stops = chars_of(to);
    let start = match text.locate(from) {
        Some(k) => k,
        None => {
            proof {
                assert(false);
            }
            0
        },
    };
    proof {
        lemma_index_at(text@, start as int);
    }
    let mut pos: usize = from;
    let mut i: usize = start;
    let mut escaped = false;
    while i < text.remaining.len()
        invariant
            start <= i <= text@.len(),
            text.wf(),
            stops@ == to@,
            pos == offset_of(text@, i as int),
            escaped == escaped_from(text@, start as int, i as int),
            forall|j: int| start <= j < i ==> !#[trigger] stops_escaped(text@, start as int, j, to@),
        ensures
            i < text@.len() ==> stops_escaped(text@, start as int, i as int, to@),
        decreases text@.len() - i,
    {
        let ch = text.remaining[i];
        if escaped || ch == '\\' {
            escaped = !escaped;
        } else if contains_char(&stops, ch) {
            break ;
        }
        proof {
            assert(text@.take(i + 1).drop_last() =~= text@.take(i as int));
            lemma_offsets_grow(text@, i + 1, text@.len() as int);
        }
        pos += char_width(ch);
        i += 1;
    }
    proof {
        lemma_index_at(text@, i as int);
    }
    pos
}

/// The byte position of the first character from `from` on that is one of
/// `to`; the end of the text where there is none.
pub fn scanner_string(text: &Feeder, from: usize, to: &str) -> (pos: usize)
    requires
        text.wf(),
        is_boundary(text@, from as int),
    ensures
        is_boundary(text@, pos as int),
        plain_scan(text@, index_at(text@, from as int), index_at(text@, pos as int), to@),
{
    let stops = chars_of(to);
    let start = match text.locate(from) {
        Some(k) => k,
        None => {
            proof {
                assert(false);
            }
            0
        },
    };
    proof {
        lemma_index_at(text@, start as int);
    }
    let mut pos: usize = from;
    let mut i: usize = start;
    while i < text.remaining.len()
        invariant
            start <= i <= text@.len(),
            text.wf(),
            stops@ == to@,
            pos == offset_of(text@, i as int),
            forall|j: int| start <= j < i ==> !#[trigger] stops_plain(text@, j, to@),
        ensures
            i < text@.len() ==> stops_plain(text@, i as int, to@),
        decreases text@.len() - i,
    {
        let ch = text.remaining[i];
        if contains_char(&stops, ch) {
            break ;
        }
        proof {
            assert(text@.take(i + 1).drop_last() =~= text@.take(i as int));
            lemma_offsets_grow(text@, i + 1, text@.len() as int);
        }
        pos += char_width(ch);
        i += 1;
    }
    proof {
        lemma_index_at(text@, i as int);
    }
    pos
}

/// The byte position of the first character from `from` on that cannot
/// stand in the name of a variable; the end of the text where there is none.
pub fn scanner_varname(text: &Feeder, from: usize) -> (pos: usize)
    requires
        text.wf(),
        is_boundary(text@, from as int),
    ensures
        is_boundary(text@, pos as int),
        name_scan(text@, index_at(text@, from as int), index_at(text@, pos as int)),
{
    let start = match text.locate(from) {
        Some(k) => k,
        None => {
            proof {
                assert(false);
            }
            0
        },
    };
    proof {
        lemma_index_at(text@, start as int);
    }
    let mut pos: usize = from;
    let mut i: usize = start;
    while i < text.remaining.len()
        invariant
            start <= i <= text@.len(),
            text.wf(),
            pos == offset_of(text@, i as int),
            forall|j: int| start <= j < i ==> is_name_char(#[trigger] text@[j]),
        ensures
            i < text@.len() ==> !is_name_char(text@[i as int]),
        decreases text@.len() - i,
    {
        let ch = text.remaining[i];
        if !((ch >= '0' && ch <= '9') || (ch >= 'A' && ch <= 'Z') || (ch >= 'a' && ch <= 'z') || ch
            == '_') {
            break ;
        }
        proof {
            assert(text@.take(i + 1).drop_last() =~= text@.take(i as int));
            lemma_offsets_grow(text@, i + 1, text@.len() as int);
        }
        pos += char_width(ch);
        i += 1;
    }
    proof {
        lemma_index_at(text@, i as int);
    }
    pos
}

} // verus!
