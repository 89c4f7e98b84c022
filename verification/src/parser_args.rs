//! Cuts the words of a command off the front of the text: braced words,
//! plain words, and words in single or double quotes.

use crate::elems_in_command::Arg;
use crate::feeder::{lemma_offsets_grow, offset_of, Feeder, TextPos};
use crate::scanner::escaped_from;
use crate::text::{
    byte_len, char_width, chars_of, lemma_byte_len_concat, string_of, utf8_width,
};
use vstd::prelude::*;

verus! {

/// A piece of a word that stands outside quotes.
#[derive(Debug)]
pub struct SubArg {
    pub text: String,
    pub pos: TextPos,
}

/// A piece of a word in single quotes, the quotes included.
#[derive(Debug)]
pub struct SubArgSingleQuoted {
    pub text: String,
    pub pos: TextPos,
}

/// A piece of a word in double quotes, the quotes included.
#[derive(Debug)]
pub struct SubArgDoubleQuoted {
    pub text: String,
    pub pos: TextPos,
}

/// A piece of a word in braces that holds a comma, the braces included.
#[derive(Debug)]
pub struct SubArgBraced {
    pub text: String,
    pub pos: TextPos,
}

/// A piece of a word, of one of the four kinds.
#[derive(Debug)]
pub enum ArgElem {
    Braced(SubArgBraced),
    Normal(SubArg),
    SingleQuoted(SubArgSingleQuoted),
    DoubleQuoted(SubArgDoubleQuoted),
}

/// Whether a character ends a plain word.
pub open spec fn is_word_end(c: char) -> bool {
    c == ' ' || c == '\n' || c == '\t' || c == ';' || c == '\'' || c == '"'
}

/// Whether the character `i` is read as itself: it is no backslash and no
/// backslash escapes it, with reading started at `start`.
pub open spec fn is_plain_at(s: Seq<char>, start: int, i: int) -> bool {
    !escaped_from(s, start, i) && s[i] != '\\'
}

/// The kinds of pieces that a word is made of.
pub enum PieceKind {
    Braced,
    Normal,
    SingleQuoted,
    DoubleQuoted,
}

/// Whether the scan for the end of a piece of the given kind stops at the
/// character `i`. A plain piece stops at a character that ends a word, or at
/// an opening brace that is not its first character. A piece in single quotes
/// stops at the next single quote. A piece in double quotes stops at the next
/// double quote that is read as itself. A braced piece stops at its closing
/// brace or at a character that ends a word.
pub open spec fn stops_at(kind: PieceKind, s: Seq<char>, i: int) -> bool {
    match kind {
        PieceKind::Normal => is_plain_at(s, 0, i) && (is_word_end(s[i]) || (i > 0 && s[i] == '{')),
        PieceKind::SingleQuoted => s[i] == '\'',
        PieceKind::DoubleQuoted => is_plain_at(s, 1, i) && s[i] == '"',
        PieceKind::Braced => is_plain_at(s, 0, i) && (is_word_end(s[i]) || s[i] == '}'),
    }
}

/// The first character from `i` on at which the scan stops, if there is one.
pub open spec fn find_stop(kind: PieceKind, s: Seq<char>, i: int) -> Option<int>
    decreases s.len() - i,
{
    if i < 0 || i >= s.len() {
        None
    } else if stops_at(kind, s, i) {
        Some(i)
    } else {
        find_stop(kind, s, i + 1)
    }
}

/// Whether a comma that is read as itself stands before the character `end`.
pub open spec fn has_comma_before(s: Seq<char>, end: int) -> bool {
    exists|j: int| 0 <= j < end && is_plain_at(s, 0, j) && #[trigger] s[j] == ','
}

/// The number of characters of the plain piece at the front of the text, if
/// one stands there: the text does not start with a character that ends a
/// word, and the piece runs up to the first character at which the scan
/// stops. A text that ends before the scan stops holds no piece.
pub open spec fn normal_len(s: Seq<char>) -> Option<int> {
    if s.len() == 0 || is_word_end(s[0]) {
        None
    } else {
        find_stop(PieceKind::Normal, s, 0)
    }
}

/// The number of characters of the piece in single quotes at the front of
/// the text, if one stands there, both quotes included.
pub open spec fn single_len(s: Seq<char>) -> Option<int> {
    if s.len() == 0 || s[0] != '\'' {
        None
    } else {
        match find_stop(PieceKind::SingleQuoted, s, 1) {
            Some(end) => Some(end + 1),
            None => None,
        }
    }
}

/// The number of characters of the piece in double quotes at the front of
/// the text, if one stands there, both quotes included.
pub open spec fn double_len(s: Seq<char>) -> Option<int> {
    if s.len() == 0 || s[0] != '"' {
        None
    } else {
        match find_stop(PieceKind::DoubleQuoted, s, 1) {
            Some(end) => Some(end + 1),
            None => None,
        }
    }
}

/// The number of characters of the braced piece at the front of the text, if
/// one stands there, both braces included: the scan stops at a closing brace,
/// and a comma that is read as itself stands before it.
pub open spec fn braced_len(s: Seq<char>) -> Option<int> {
    if s.len() == 0 || s[0] != '{' {
        None
    } else {
        match find_stop(PieceKind::Braced, s, 0) {
            Some(end) => if s[end] == '}' && has_comma_before(s, end) {
                Some(end + 1)
            } else {
                None
            },
            None => None,
        }
    }
}

/// Whether the feeder went from `before` to `after` by handing out its
/// first `count` characters as a piece with the text `text` at `pos`.
pub open spec fn took(
    before: Feeder,
    after: Feeder,
    text: Seq<char>,
    pos: TextPos,
    count: int,
) -> bool {
    &&& 0 <= count <= before@.len()
    &&& text == before@.take(count)
    &&& pos == (TextPos {
        lineno: before.from_lineno,
        pos: before.pos_in_line,
        length: byte_len(text) as usize,
    })
    &&& after@ == before@.skip(count)
    &&& after.pos_in_line == before.pos_in_line + byte_len(text)
    &&& after.from_lineno == before.from_lineno
    &&& after.to_lineno == before.to_lineno
    &&& after.wf()
}

/// A stop that is found lies at or behind the place where the search began,
/// and no character between the two stops the scan.
pub proof fn lemma_find_stop(kind: PieceKind, s: Seq<char>, i: int)
    requires
        0 <= i,
    ensures
        match find_stop(kind, s, i) {
            Some(end) => {
                &&& i <= end < s.len()
                &&& stops_at(kind, s, end)
                &&& forall|j: int| i <= j < end ==> !stops_at(kind, s, j)
            },
            None => forall|j: int| i <= j < s.len() ==> !stops_at(kind, s, j),
        },
    decreases s.len() - i,
{
    if i < s.len() && !stops_at(kind, s, i) {
        lemma_find_stop(kind, s, i + 1);
    }
}

/// Takes the first `count` characters, `bytes` bytes long, off the feeder
/// and says where they stood.
fn take_piece(text: &mut Feeder, count: usize, bytes: usize) -> (r: (String, TextPos))
    requires
        old(text).wf(),
        count <= old(text)@.len(),
        bytes == offset_of(old(text)@, count as int),
    ensures
        took(*old(text), *final(text), r.0@, r.1, count as int),
{
    let pos = TextPos { lineno: text.from_lineno, pos: text.pos_in_line, length: bytes };
    let piece = text.consume_chars(count, bytes);
    (piece, pos)
}

/// Cuts a plain piece off the front of the text, if one stands there.
pub fn subarg_normal(text: &mut Feeder) -> (r: Option<SubArg>)
    requires
        old(text).wf(),
    ensures
        match r {
            Some(piece) => normal_len(old(text)@) matches Some(count) && took(
                *old(text),
                *final(text),
                piece.text@,
                piece.pos,
                count,
            ),
            None => normal_len(old(text)@) is None && *final(text) == *old(text),
        },
{
    if text.remaining.len() == 0 {
        return None;
    }
    let first = text.remaining[0];
    if first == ' ' || first == '\n' || first == '\t' || first == '"' || first == '\''
        || first == ';' {
        return None;
    }
    let n = text.remaining.len();
    let mut pos: usize = 0;
    let mut i: usize = 0;
    let mut escaped = false;
    while i < n
        invariant
            i <= n,
            n == text@.len(),
            *text == *old(text),
            text.wf(),
            pos == offset_of(text@, i as int),
            escaped == escaped_from(text@, 0, i as int),
            find_stop(PieceKind::Normal, text@, 0) == find_stop(PieceKind::Normal, text@, i as int),
        ensures
            i < n ==> stops_at(PieceKind::Normal, text@, i as int),
            i >= n ==> find_stop(PieceKind::Normal, text@, 0) is None,
        decreases n - i,
    {
        let ch = text.remaining[i];
        if !(escaped || ch == '\\') {
            if ch == ' ' || ch == '\n' || ch == '\t' || ch == ';' || ch == '\'' || ch == '"' || (i
                > 0 && ch == '{') {
                break ;
            }
        }
        escaped = !escaped && ch == '\\';
        proof {
            assert(text@.take(i + 1).drop_last() =~= text@.take(i as int));
            lemma_offsets_grow(text@, i + 1, n as int);
        }
        pos += char_width(ch);
        i += 1;
    }
    if i >= n {
        return None;
    }
    let (piece, at) = take_piece(text, i, pos);
    Some(SubArg { text: piece, pos: at })
}

/// Cuts a piece in single quotes off the front of the text, if one stands
/// there.
pub fn subarg_single_qt(text: &mut Feeder) -> (r: Option<SubArgSingleQuoted>)
    requires
        old(text).wf(),
    ensures
        match r {
            Some(piece) => single_len(old(text)@) matches Some(count) && took(
                *old(text),
                *final(text),
                piece.text@,
                piece.pos,
                count,
            ),
            None => single_len(old(text)@) is None && *final(text) == *old(text),
        },
{
    if text.remaining.len() == 0 || text.remaining[0] != '\'' {
        return None;
    }
    let n = text.remaining.len();
    proof {
        assert(text@.take(1).drop_last() =~= text@.take(0));
        assert(text@.take(1).last() == text@[0]);
        assert(byte_len(text@.take(0)) == 0);
        assert(utf8_width(text@[0]) == 1);
        lemma_offsets_grow(text@, 1, n as int);
    }
    let mut pos: usize = 1;
    let mut i: usize = 1;
    while i < n
        invariant
            1 <= i <= n,
            n == text@.len(),
            *text == *old(text),
            text.wf(),
            pos == offset_of(text@, i as int),
            find_stop(PieceKind::SingleQuoted, text@, 1) == find_stop(
                PieceKind::SingleQuoted,
                text@,
                i as int,
            ),
        ensures
            i < n ==> stops_at(PieceKind::SingleQuoted, text@, i as int),
            i >= n ==> find_stop(PieceKind::SingleQuoted, text@, 1) is None,
        decreases n - i,
    {
        let ch = text.remaining[i];
        if ch == '\'' {
            break ;
        }
        proof {
            assert(text@.take(i + 1).drop_last() =~= text@.take(i as int));
            lemma_offsets_grow(text@, i + 1, n as int);
        }
        pos += char_width(ch);
        i += 1;
    }
    if i >= n {
        return None;
    }
    proof {
        assert(text@.take(i + 1).drop_last() =~= text@.take(i as int));
        assert(text@.take(i + 1).last() == text@[i as int]);
        assert(utf8_width(text@[i as int]) == 1);
        lemma_offsets_grow(text@, i + 1, n as int);
    }
    let (piece, at) = take_piece(text, i + 1, pos + 1);
    Some(SubArgSingleQuoted { text: piece, pos: at })
}

/// Cuts a piece in double quotes off the front of the text, if one stands
/// there.
pub fn subarg_double_qt(text: &mut Feeder) -> (r: Option<SubArgDoubleQuoted>)
    requires
        old(text).wf(),
    ensures
        match r {
            Some(piece) => double_len(old(text)@) matches Some(count) && took(
                *old(text),
                *final(text),
                piece.text@,
                piece.pos,
                count,
            ),
            None => double_len(old(text)@) is None && *final(text) == *old(text),
        },
{
    if text.remaining.len() == 0 || text.remaining[0] != '"' {
        return None;
    }
    let n = text.remaining.len();
    proof {
        assert(text@.take(1).drop_last() =~= text@.take(0));
        assert(text@.take(1).last() == text@[0]);
        assert(byte_len(text@.take(0)) == 0);
        assert(utf8_width(text@[0]) == 1);
        lemma_offsets_grow(text@, 1, n as int);
    }
    let mut pos: usize = 1;
    let mut i: usize = 1;
    let mut escaped = false;
    while i < n
        invariant
            1 <= i <= n,
            n == text@.len(),
            *text == *old(text),
            text.wf(),
            pos == offset_of(text@, i as int),
            escaped == escaped_from(text@, 1, i as int),
            find_stop(PieceKind::DoubleQuoted, text@, 1) == find_stop(
                PieceKind::DoubleQuoted,
                text@,
                i as int,
            ),
        ensures
            i < n ==> stops_at(PieceKind::DoubleQuoted, text@, i as int),
            i >= n ==> find_stop(PieceKind::DoubleQuoted, text@, 1) is None,
        decreases n - i,
    {
        let ch = text.remaining[i];
        if !(escaped || ch == '\\') && ch == '"' {
            break ;
        }
        escaped = !escaped && ch == '\\';
        proof {
            assert(text@.take(i + 1).drop_last() =~= text@.take(i as int));
            lemma_offsets_grow(text@, i + 1, n as int);
        }
        pos += char_width(ch);
        i += 1;
    }
    if i >= n {
        return None;
    }
    proof {
        assert(text@.take(i + 1).drop_last() =~= text@.take(i as int));
        assert(text@.take(i + 1).last() == text@[i as int]);
        assert(utf8_width(text@[i as int]) == 1);
        lemma_offsets_grow(text@, i + 1, n as int);
    }
    let (piece, at) = take_piece(text, i + 1, pos + 1);
    Some(SubArgDoubleQuoted { text: piece, pos: at })
}

/// Cuts a braced piece off the front of the text, if one stands there.
pub fn subarg_braced(text: &mut Feeder) -> (r: Option<SubArgBraced>)
    requires
        old(text).wf(),
    ensures
        match r {
            Some(piece) => braced_len(old(text)@) matches Some(count) && took(
                *old(text),
                *final(text),
                piece.text@,
                piece.pos,
                count,
            ),
            None => braced_len(old(text)@) is None && *final(text) == *old(text),
        },
{
    if text.remaining.len() == 0 || text.remaining[0] != '{' {
        return None;
    }
    let n = text.remaining.len();
    let mut pos: usize = 0;
    let mut i: usize = 0;
    let mut escaped = false;
    let mut comma = false;
    while i < n
        invariant
            i <= n,
            n == text@.len(),
            *text == *old(text),
            text.wf(),
            pos == offset_of(text@, i as int),
            escaped == escaped_from(text@, 0, i as int),
            comma == has_comma_before(text@, i as int),
            find_stop(PieceKind::Braced, text@, 0) == find_stop(PieceKind::Braced, text@, i as int),
        ensures
            i < n ==> stops_at(PieceKind::Braced, text@, i as int),
            i >= n ==> find_stop(PieceKind::Braced, text@, 0) is None,
        decreases n - i,
    {
        let ch = text.remaining[i];
        let plain = !(escaped || ch == '\\');
        if plain && (ch == ' ' || ch == '\n' || ch == '\t' || ch == ';' || ch == '\'' || ch == '"'
            || ch == '}') {
            break ;
        }
        proof {
            let now = plain && ch == ',';
            assert(has_comma_before(text@, i + 1) <==> comma || now) by {
                if comma {
                    let j = choose|j: int|
                        0 <= j < i && is_plain_at(text@, 0, j) && #[trigger] text@[j] == ',';
                    assert(0 <= j < i + 1 && is_plain_at(text@, 0, j) && text@[j] == ',');
                }
                if now {
                    assert(is_plain_at(text@, 0, i as int) && text@[i as int] == ',');
                }
                if has_comma_before(text@, i + 1) {
                    let j = choose|j: int|
                        0 <= j < i + 1 && is_plain_at(text@, 0, j) && #[trigger] text@[j] == ',';
                    if j < i {
                        assert(has_comma_before(text@, i as int));
                    }
                }
            }
        }
        if plain && ch == ',' {
            comma = true;
        }
        escaped = !escaped && ch == '\\';
        proof {
            assert(text@.take(i + 1).drop_last() =~= text@.take(i as int));
            lemma_offsets_grow(text@, i + 1, n as int);
        }
        pos += char_width(ch);
        i += 1;
    }
    if i >= n || text.remaining[i] != '}' || !comma {
        return None;
    }
    proof {
        assert(text@.take(i + 1).drop_last() =~= text@.take(i as int));
        assert(text@.take(i + 1).last() == text@[i as int]);
        assert(utf8_width(text@[i as int]) == 1);
        lemma_offsets_grow(text@, i + 1, n as int);
    }
    let (piece, at) = take_piece(text, i + 1, pos + 1);
    Some(SubArgBraced { text: piece, pos: at })
}

/// The text with every occurrence of the character `c` replaced by `with`.
pub open spec fn replace_char(s: Seq<char>, c: char, with: Seq<char>) -> Seq<char>
    decreases s.len(),
{
    if s.len() == 0 {
        Seq::empty()
    } else {
        (if s[0] == c {
            with
        } else {
            seq![s[0]]
        }) + replace_char(s.skip(1), c, with)
    }
}

/// A text that came out of double quotes, made safe against a later
/// expansion of patterns: every backslash is doubled, and after that a
/// backslash is put before every `*`.
pub open spec fn pattern_escaped(s: Seq<char>) -> Seq<char> {
    replace_char(replace_char(s, '\\', seq!['\\', '\\']), '*', seq!['\\', '*'])
}

/// Computes [`replace_char`] for a replacement of two characters.
fn replaced_char(s: &Vec<char>, c: char, first: char, second: char) -> (r: Vec<char>)
    ensures
        r@ == replace_char(s@, c, seq![first, second]),
{
    let mut r: Vec<char> = Vec::new();
    let n = s.len();
    let mut i: usize = 0;
    proof {
        assert(s@.skip(0) =~= s@);
        assert(r@ + replace_char(s@, c, seq![first, second]) =~= replace_char(
            s@,
            c,
            seq![first, second],
        ));
    }
    while i < n
        invariant
            i <= n,
            n == s@.len(),
            r@ + replace_char(s@.skip(i as int), c, seq![first, second]) == replace_char(
                s@,
                c,
                seq![first, second],
            ),
        decreases n - i,
    {
        let ghost rest = s@.skip(i as int);
        let ghost before = r@;
        proof {
            assert(rest.skip(1) =~= s@.skip(i + 1));
        }
        if s[i] == c {
            r.push(first);
            r.push(second);
            proof {
                assert(r@ =~= before + seq![first, second]);
            }
        } else {
            r.push(s[i]);
            proof {
                assert(r@ =~= before + seq![s@[i as int]]);
            }
        }
        proof {
            assert(r@ + replace_char(s@.skip(i + 1), c, seq![first, second]) =~= before
                + replace_char(rest, c, seq![first, second]));
        }
        i += 1;
    }
    proof {
        assert(r@ + replace_char(s@.skip(n as int), c, seq![first, second]) =~= r@);
    }
    r
}

impl SubArgDoubleQuoted {
    /// Makes a text that came out of the quotes safe against a later
    /// expansion of patterns, as [`pattern_escaped`] says.
    pub fn escape(text: &String) -> (escaped: String)
        ensures
            escaped@ == pattern_escaped(text@),
    {
        let chars = chars_of(text.as_str());
        let doubled = replaced_char(&chars, '\\', '\\', '\\');
        let starred = replaced_char(&doubled, '*', '\\', '*');
        proof {
            assert(starred@.subrange(0, starred@.len() as int) =~= starred@);
        }
        string_of(&starred, 0, starred.len())
    }
}

impl ArgElem {
    /// The text of the piece.
    pub open spec fn text_view(&self) -> Seq<char> {
        match self {
            ArgElem::Braced(piece) => piece.text@,
            ArgElem::Normal(piece) => piece.text@,
            ArgElem::SingleQuoted(piece) => piece.text@,
            ArgElem::DoubleQuoted(piece) => piece.text@,
        }
    }

    /// Where the piece stood.
    pub open spec fn pos_view(&self) -> TextPos {
        match self {
            ArgElem::Braced(piece) => piece.pos,
            ArgElem::Normal(piece) => piece.pos,
            ArgElem::SingleQuoted(piece) => piece.pos,
            ArgElem::DoubleQuoted(piece) => piece.pos,
        }
    }

    /// The text of the piece.
    pub fn get_text(&self) -> (t: String)
        ensures
            t@ == self.text_view(),
    {
        match self {
            ArgElem::Braced(piece) => piece.text.clone(),
            ArgElem::Normal(piece) => piece.text.clone(),
            ArgElem::SingleQuoted(piece) => piece.text.clone(),
            ArgElem::DoubleQuoted(piece) => piece.text.clone(),
        }
    }

    /// The number of bytes of the piece.
    pub fn get_length(&self) -> (n: usize)
        ensures
            n == self.pos_view().length,
    {
        match self {
            ArgElem::Braced(piece) => piece.pos.length,
            ArgElem::Normal(piece) => piece.pos.length,
            ArgElem::SingleQuoted(piece) => piece.pos.length,
            ArgElem::DoubleQuoted(piece) => piece.pos.length,
        }
    }
}

/// The number of characters of the piece at the front of the text, if one
/// stands there. A braced piece is tried first, then a plain one, then one in
/// single quotes, then one in double quotes.
pub open spec fn subarg_len(s: Seq<char>) -> Option<int> {
    if braced_len(s) is Some {
        braced_len(s)
    } else if normal_len(s) is Some {
        normal_len(s)
    } else if single_len(s) is Some {
        single_len(s)
    } else {
        double_len(s)
    }
}

/// Whether the piece is of the kind that stands at the front of the text.
pub open spec fn kind_fits(elem: ArgElem, s: Seq<char>) -> bool {
    match elem {
        ArgElem::Braced(_) => braced_len(s) is Some,
        ArgElem::Normal(_) => braced_len(s) is None && normal_len(s) is Some,
        ArgElem::SingleQuoted(_) => braced_len(s) is None && normal_len(s) is None && single_len(
            s,
        ) is Some,
        ArgElem::DoubleQuoted(_) => braced_len(s) is None && normal_len(s) is None && single_len(
            s,
        ) is None,
    }
}

/// The pieces of the word at the front of the text, one after the other,
/// up to the place where no piece stands.
pub open spec fn arg_pieces(s: Seq<char>) -> Seq<Seq<char>>
    decreases s.len(),
{
    match subarg_len(s) {
        Some(count) => if 0 < count <= s.len() {
            seq![s.take(count)] + arg_pieces(s.skip(count))
        } else {
            Seq::empty()
        },
        None => Seq::empty(),
    }
}

/// The texts put one after the other.
pub open spec fn concat_all(pieces: Seq<Seq<char>>) -> Seq<char>
    decreases pieces.len(),
{
    if pieces.len() == 0 {
        Seq::empty()
    } else {
        concat_all(pieces.drop_last()) + pieces.last()
    }
}

/// The texts of the pieces.
pub open spec fn piece_texts(pieces: Seq<ArgElem>) -> Seq<Seq<char>> {
    pieces.map_values(|elem: ArgElem| elem.text_view())
}

/// A piece at the front of a text holds at least one character and no more
/// than the text.
pub proof fn lemma_subarg_len(s: Seq<char>)
    ensures
        subarg_len(s) matches Some(count) ==> 0 < count <= s.len(),
{
    lemma_find_stop(PieceKind::Braced, s, 0);
    lemma_find_stop(PieceKind::Normal, s, 0);
    lemma_find_stop(PieceKind::SingleQuoted, s, 1);
    lemma_find_stop(PieceKind::DoubleQuoted, s, 1);
}

/// Cuts the piece at the front of the text off, if one stands there.
pub fn subarg(text: &mut Feeder) -> (r: Option<ArgElem>)
    requires
        old(text).wf(),
    ensures
        match r {
            Some(elem) => {
                &&& subarg_len(old(text)@) matches Some(count) && took(
                    *old(text),
                    *final(text),
                    elem.text_view(),
                    elem.pos_view(),
                    count,
                )
                &&& kind_fits(elem, old(text)@)
            },
            None => subarg_len(old(text)@) is None && *final(text) == *old(text),
        },
{
    if let Some(piece) = subarg_braced(text) {
        return Some(ArgElem::Braced(piece));
    }
    if let Some(piece) = subarg_normal(text) {
        return Some(ArgElem::Normal(piece));
    }
    if let Some(piece) = subarg_single_qt(text) {
        return Some(ArgElem::SingleQuoted(piece));
    }
    if let Some(piece) = subarg_double_qt(text) {
        return Some(ArgElem::DoubleQuoted(piece));
    }
    None
}

/// Cuts the word at the front of the text off: every piece that stands
/// there, one after the other. The word is empty where no piece stands at
/// the front.
pub fn arg(text: &mut Feeder) -> (r: Option<Arg>)
    requires
        old(text).wf(),
    ensures
        r matches Some(word) && {
            &&& piece_texts(word.subargs@) == arg_pieces(old(text)@)
            &&& word.text@ == concat_all(arg_pieces(old(text)@))
            &&& word.text@ + final(text)@ == old(text)@
            &&& word.pos == (TextPos {
                lineno: old(text).from_lineno,
                pos: old(text).pos_in_line,
                length: byte_len(word.text@) as usize,
            })
            &&& subarg_len(final(text)@) is None
            &&& final(text).pos_in_line == old(text).pos_in_line + byte_len(word.text@)
            &&& final(text).from_lineno == old(text).from_lineno
            &&& final(text).to_lineno == old(text).to_lineno
            &&& final(text).wf()
        },
{
    let mut whole = String::new();
    let mut length: usize = 0;
    let mut subargs: Vec<ArgElem> = Vec::new();
    let lineno = text.from_lineno;
    let start = text.pos_in_line;
    proof {
        assert(piece_texts(subargs@) =~= Seq::<Seq<char>>::empty());
        assert(whole@ + text@ =~= old(text)@);
    }
    loop
        invariant
            text.wf(),
            lineno == old(text).from_lineno,
            start == old(text).pos_in_line,
            text.from_lineno == old(text).from_lineno,
            text.to_lineno == old(text).to_lineno,
            piece_texts(subargs@) + arg_pieces(text@) == arg_pieces(old(text)@),
            whole@ == concat_all(piece_texts(subargs@)),
            whole@ + text@ == old(text)@,
            length == byte_len(whole@),
            text.pos_in_line == start + length,
        ensures
            subarg_len(text@) is None,
        decreases text@.len(),
    {
        let ghost before = *text;
        proof {
            lemma_subarg_len(text@);
        }
        match subarg(text) {
            Some(elem) => {
                let piece = elem.get_text();
                proof {
                    let count = subarg_len(before@)->0;
                    lemma_byte_len_concat(whole@, piece@);
                    assert(piece_texts(subargs@.push(elem)) =~= piece_texts(subargs@).push(
                        piece@,
                    ));
                    assert(piece_texts(subargs@).push(piece@).drop_last() =~= piece_texts(
                        subargs@,
                    ));
                    assert(piece_texts(subargs@).push(piece@) + arg_pieces(text@) =~= piece_texts(
                        subargs@,
                    ) + arg_pieces(before@));
                    assert((whole@ + piece@) + text@ =~= whole@ + before@);
                }
                whole.append(piece.as_str());
                length += elem.get_length();
                subargs.push(elem);
            },
            None => {
                break ;
            },
        }
    }
    proof {
        assert(arg_pieces(text@) =~= Seq::<Seq<char>>::empty());
        assert(piece_texts(subargs@) + arg_pieces(text@) =~= piece_texts(subargs@));
    }
    Some(
        Arg {
            text: whole,
            pos: TextPos { lineno: lineno, pos: start, length: length },
            subargs: subargs,
        },
    )
}

} // verus!
