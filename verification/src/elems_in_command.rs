//! The parts that a simple command is made of: words, delimiters between
//! them, assignments, redirections and the mark that ends the command.

use crate::feeder::{index_at, is_boundary, DebugInfo, Feeder, TextPos};
use crate::parser_args::ArgElem;
use crate::scanner::escaped_from;
use crate::text::{chars_of, string_of};
use vstd::prelude::*;

verus! {

/// The blanks between two words.
#[derive(Debug)]
pub struct ArgDelimiter {
    pub text: String,
    pub debug: DebugInfo,
}

/// The end of a command: `;`, a line break, or a comment.
#[derive(Debug)]
pub struct Eoc {
    pub text: String,
    pub debug: DebugInfo,
}

/// The name of a variable as it stands in the text.
#[derive(Debug)]
pub struct VarName {
    pub text: String,
    pub pos: DebugInfo,
}

/// A word of a command, with the pieces it is made of.
#[derive(Debug)]
pub struct Arg {
    pub text: String,
    pub pos: TextPos,
    pub subargs: Vec<ArgElem>,
}

/// An assignment `name=value` in front of a command.
#[derive(Debug)]
pub struct Substitution {
    pub text: String,
    pub name: VarName,
    pub value: Arg,
    pub debug: DebugInfo,
}

/// A redirection: the descriptor `left_fd` is directed as `direction_str`
/// says (`<`, `>` or `&>`) to `path`, which names a file, or another
/// descriptor where it starts with `&`.
#[derive(Debug)]
pub struct Redirect {
    pub text: String,
    pub pos: DebugInfo,
    pub left_fd: i32,
    pub direction_str: String,
    pub path: String,
}

/// The text with every occurrence of the two characters `first`, `second`
/// replaced by `with`, reading from the left and never reading a character
/// twice.
pub open spec fn replace_pair(s: Seq<char>, first: char, second: char, with: char) -> Seq<char>
    decreases s.len(),
{
    if s.len() == 0 {
        Seq::empty()
    } else if s.len() >= 2 && s[0] == first && s[1] == second {
        seq![with] + replace_pair(s.skip(2), first, second, with)
    } else {
        seq![s[0]] + replace_pair(s.skip(1), first, second, with)
    }
}

/// A pattern that matched nothing, taken as it reads: `\*` stands for `*`,
/// and after that `\\` for `\`.
pub open spec fn unescaped_pattern(s: Seq<char>) -> Seq<char> {
    replace_pair(replace_pair(s, '\\', '*', '*'), '\\', '\\', '\\')
}

/// The first `n` characters of the text without the backslashes that escape
/// the character after them. A backslash that is escaped itself stays.
pub open spec fn without_escapes(s: Seq<char>, n: int) -> Seq<char>
    decreases n,
{
    if n <= 0 {
        Seq::empty()
    } else {
        let before = without_escapes(s, n - 1);
        if escaped_from(s, 0, n - 1) || s[n - 1] != '\\' {
            before.push(s[n - 1])
        } else {
            before
        }
    }
}

/// Computes [`replace_pair`].
fn replaced(s: &Vec<char>, first: char, second: char, with: char) -> (r: Vec<char>)
    ensures
        r@ == replace_pair(s@, first, second, with),
{
    let mut r: Vec<char> = Vec::new();
    let n = s.len();
    let mut i: usize = 0;
    proof {
        assert(s@.skip(0) =~= s@);
        assert(r@ + replace_pair(s@, first, second, with) =~= replace_pair(
            s@,
            first,
            second,
            with,
        ));
    }
    while i < n
        invariant
            i <= n,
            n == s@.len(),
            r@ + replace_pair(s@.skip(i as int), first, second, with) == replace_pair(
                s@,
                first,
                second,
                with,
            ),
        decreases n - i,
    {
        let ghost rest = s@.skip(i as int);
        if i + 1 < n && s[i] == first && s[i + 1] == second {
            proof {
                assert(rest.skip(2) =~= s@.skip(i + 2));
                assert(r@.push(with) + replace_pair(s@.skip(i + 2), first, second, with) =~= r@
                    + replace_pair(rest, first, second, with));
            }
            r.push(with);
            i += 2;
        } else {
            proof {
                assert(rest.skip(1) =~= s@.skip(i + 1));
                assert(r@.push(s@[i as int]) + replace_pair(s@.skip(i + 1), first, second, with)
                    =~= r@ + replace_pair(rest, first, second, with));
            }
            r.push(s[i]);
            i += 1;
        }
    }
    proof {
        assert(r@ + replace_pair(s@.skip(n as int), first, second, with) =~= r@);
    }
    r
}

impl ArgDelimiter {
    /// Makes a delimiter of the first `pos` bytes of the text, which it
    /// takes off the feeder; there is none where `pos` is 0.
    pub fn return_if_valid(text: &mut Feeder, pos: usize) -> (r: Option<ArgDelimiter>)
        requires
            old(text).wf(),
            is_boundary(old(text)@, pos as int),
        ensures
            match r {
                Some(delimiter) => {
                    &&& pos != 0
                    &&& delimiter.text@ == old(text)@.take(index_at(old(text)@, pos as int))
                    &&& final(text)@ == old(text)@.skip(index_at(old(text)@, pos as int))
                    &&& final(text).pos_in_line == old(text).pos_in_line + pos
                    &&& final(text).from_lineno == old(text).from_lineno
                    &&& final(text).to_lineno == old(text).to_lineno
                    &&& final(text).wf()
                    &&& delimiter.debug == (DebugInfo {
                        lineno: final(text).from_lineno,
                        pos: final(text).pos_in_line,
                    })
                },
                None => pos == 0 && *final(text) == *old(text),
            },
    {
        if pos == 0 {
            return None;
        }
        let cut = text.consume(pos);
        let debug = DebugInfo::init(text);
        Some(ArgDelimiter { text: cut, debug: debug })
    }

    /// The text of the delimiter.
    pub fn text(&self) -> (t: String)
        ensures
            t@ == self.text@,
    {
        self.text.clone()
    }
}

impl Eoc {
    /// The text of the mark.
    pub fn text(&self) -> (t: String)
        ensures
            t@ == self.text@,
    {
        self.text.clone()
    }
}

impl Substitution {
    /// Makes the assignment of `value` to `name`, read at the place that the
    /// feeder has reached. Its text is `name=value`.
    pub fn new(text: &Feeder, name: VarName, value: Arg) -> (r: Substitution)
        ensures
            r.text@ == name.text@ + seq!['='] + value.text@,
            r.name == name,
            r.value == value,
            r.debug == (DebugInfo { lineno: text.from_lineno, pos: text.pos_in_line }),
    {
        let mut whole = name.text.clone();
        whole.push('=');
        whole.append(value.text.as_str());
        proof {
            assert(whole@ =~= name.text@ + seq!['='] + value.text@);
        }
        Substitution { text: whole, name: name, value: value, debug: DebugInfo::init(text) }
    }

    /// The text of the assignment.
    pub fn text(&self) -> (t: String)
        ensures
            t@ == self.text@,
    {
        self.text.clone()
    }
}

impl Arg {
    /// The words that a pattern stands for. `found` holds the paths that the
    /// pattern matched. Where it matched none, the pattern stands for itself,
    /// read as [`unescaped_pattern`] says.
    pub fn expand_glob(text: &String, found: Vec<String>) -> (words: Vec<String>)
        ensures
            found@.len() > 0 ==> words == found,
            found@.len() == 0 ==> words@.len() == 1 && words@[0]@ == unescaped_pattern(text@),
    {
        let mut words = found;
        if words.len() == 0 {
            let chars = chars_of(text.as_str());
            let stars = replaced(&chars, '\\', '*', '*');
            let plain = replaced(&stars, '\\', '\\', '\\');
            let word = string_of(&plain, 0, plain.len());
            proof {
                assert(plain@.subrange(0, plain@.len() as int) =~= plain@);
            }
            words.push(word);
        }
        words
    }

    /// The text without the backslashes that escape the character after
    /// them.
    pub fn remove_escape(text: &String) -> (plain: String)
        ensures
            plain@ == without_escapes(text@, text@.len() as int),
    {
        let chars = chars_of(text.as_str());
        let mut escaped = false;
        let mut plain = String::new();
        let mut i: usize = 0;
        while i < chars.len()
            invariant
                i <= chars@.len(),
                chars@ == text@,
                escaped == escaped_from(chars@, 0, i as int),
                plain@ == without_escapes(chars@, i as int),
            decreases chars@.len() - i,
        {
            let ch = chars[i];
            if escaped || ch != '\\' {
                plain.push(ch);
            }
            escaped = !escaped && ch == '\\';
            i += 1;
        }
        plain
    }

    /// The text of the word.
    pub fn text(&self) -> (t: String)
        ensures
            t@ == self.text@,
    {
        self.text.clone()
    }
}

} // verus!
