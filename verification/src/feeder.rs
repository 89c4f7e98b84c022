//! The text that is still to be read, with the position that has been reached.

use crate::text::{
    byte_len, char_width, chars_of, lemma_byte_len_at_least, lemma_byte_len_split, string_of,
};
use vstd::prelude::*;

verus! {

/// Command text that is read from the front. Positions in the text are
/// counted in bytes of its UTF-8 form, as a string slice counts them.
#[derive(Debug)]
pub struct Feeder {
    /// The characters that are still to be read.
    pub remaining: Vec<char>,
    pub from_lineno: u32,
    pub to_lineno: u32,
    /// The number of bytes of the line that were read already.
    pub pos_in_line: u32,
}

/// Where a piece of text stood: its line and the position in that line.
#[derive(Clone, Copy, Debug, PartialEq, Eq, Structural)]
pub struct DebugInfo {
    pub lineno: u32,
    pub pos: u32,
}

/// Where a piece of text stood, and how many bytes it takes.
#[derive(Clone, Copy, Debug, PartialEq, Eq, Structural)]
pub struct TextPos {
    pub lineno: u32,
    pub pos: u32,
    pub length: usize,
}

/// The byte position at which the character `k` of the text starts; for `k`
/// the number of characters it is the byte length of the text.
pub open spec fn offset_of(s: Seq<char>, k: int) -> nat {
    byte_len(s.take(k))
}

/// Whether the byte position `pos` is the start of a character of the text,
/// or its end.
pub open spec fn is_boundary(s: Seq<char>, pos: int) -> bool {
    exists|k: int| 0 <= k <= s.len() && #[trigger] offset_of(s, k) == pos
}

/// The number of characters before the byte position `pos`, which has to be
/// a boundary.
pub open spec fn index_at(s: Seq<char>, pos: int) -> int {
    choose|k: int| 0 <= k <= s.len() && #[trigger] offset_of(s, k) == pos
}

/// Byte positions grow with the characters: a later character starts at a
/// later byte.
pub proof fn lemma_offsets_grow(s: Seq<char>, i: int, j: int)
    requires
        0 <= i <= j <= s.len(),
    ensures
        offset_of(s, i) + (j - i) <= offset_of(s, j),
        offset_of(s, j) <= byte_len(s),
{
    lemma_byte_len_split(s.take(j), i);
    assert(s.take(j).take(i) =~= s.take(i));
    lemma_byte_len_at_least(s.take(j).skip(i));
    lemma_byte_len_split(s, j);
}

/// A boundary belongs to one character index only.
pub proof fn lemma_index_at(s: Seq<char>, k: int)
    requires
        0 <= k <= s.len(),
    ensures
        is_boundary(s, offset_of(s, k) as int),
        index_at(s, offset_of(s, k) as int) == k,
{
    let pos = offset_of(s, k) as int;
    let found = index_at(s, pos);
    if found < k {
        lemma_offsets_grow(s, found, k);
    } else if found > k {
        lemma_offsets_grow(s, k, found);
    }
}

impl View for Feeder {
    type V = Seq<char>;

    open spec fn view(&self) -> Seq<char> {
        self.remaining@
    }
}

impl DebugInfo {
    /// The position that the feeder has reached.
    pub fn init(feeder: &Feeder) -> (info: DebugInfo)
        ensures
            info == (DebugInfo { lineno: feeder.from_lineno, pos: feeder.pos_in_line }),
    {
        DebugInfo { lineno: feeder.from_lineno, pos: feeder.pos_in_line }
    }
}

impl Feeder {
    /// Whether the position in the line can still be counted for all the
    /// text that is left: the bytes read and the bytes to read fit a `u32`.
    pub open spec fn wf(&self) -> bool {
        self.pos_in_line + byte_len(self@) <= u32::MAX
    }

    /// A feeder without text.
    pub fn new() -> (feeder: Feeder)
        ensures
            feeder.wf(),
            feeder@ == Seq::<char>::empty(),
            feeder.from_lineno == 0,
            feeder.to_lineno == 0,
            feeder.pos_in_line == 0,
    {
        Feeder { remaining: Vec::new(), from_lineno: 0, to_lineno: 0, pos_in_line: 0 }
    }

    /// A feeder that holds `text`, at the start of its first line. There is
    /// none for a text of more bytes than a `u32` counts.
    pub fn new_with(text: &str) -> (r: Option<Feeder>)
        ensures
            match r {
                Some(feeder) => {
                    &&& feeder.wf()
                    &&& feeder@ == text@
                    &&& feeder.from_lineno == 0
                    &&& feeder.to_lineno == 0
                    &&& feeder.pos_in_line == 0
                },
                None => byte_len(text@) > u32::MAX,
            },
    {
        let remaining = chars_of(text);
        let mut bytes: u32 = 0;
        let mut i: usize = 0;
        while i < remaining.len()
            invariant
                i <= remaining@.len(),
                remaining@ == text@,
                bytes == offset_of(remaining@, i as int),
            decreases remaining@.len() - i,
        {
            proof {
                assert(remaining@.take(i + 1).drop_last() =~= remaining@.take(i as int));
                lemma_offsets_grow(remaining@, i + 1, remaining@.len() as int);
            }
            let width = char_width(remaining[i]) as u32;
            if bytes > u32::MAX - width {
                return None;
            }
            bytes += width;
            i += 1;
        }
        proof {
            assert(remaining@.take(i as int) =~= remaining@);
        }
        Some(Feeder { remaining: remaining, from_lineno: 0, to_lineno: 0, pos_in_line: 0 })
    }

    /// The number of bytes that are left to read.
    pub fn len(&self) -> (n: usize)
        requires
            self.wf(),
        ensures
            n == byte_len(self@),
    {
        let mut bytes: usize = 0;
        let mut i: usize = 0;
        while i < self.remaining.len()
            invariant
                i <= self@.len(),
                self.wf(),
                bytes == offset_of(self@, i as int),
            decreases self@.len() - i,
        {
            proof {
                assert(self@.take(i + 1).drop_last() =~= self@.take(i as int));
                lemma_offsets_grow(self@, i + 1, self@.len() as int);
            }
            bytes += char_width(self.remaining[i]);
            i += 1;
        }
        proof {
            assert(self@.take(i as int) =~= self@);
        }
        bytes
    }

    /// The character `n` of the text that is left.
    pub fn nth(&self, n: usize) -> (c: char)
        requires
            n < self@.len(),
        ensures
            c == self@[n as int],
    {
        self.remaining[n]
    }

    /// The number of characters before the byte position `pos`, if `pos` is
    /// a boundary of the text that is left.
    pub fn locate(&self, pos: usize) -> (r: Option<usize>)
        requires
            self.wf(),
        ensures
            match r {
                Some(k) => k <= self@.len() && offset_of(self@, k as int) == pos,
                None => !is_boundary(self@, pos as int),
            },
    {
        let mut bytes: usize = 0;
        let mut i: usize = 0;
        while bytes < pos && i < self.remaining.len()
            invariant
                i <= self@.len(),
                self.wf(),
                bytes == offset_of(self@, i as int),
                forall|k: int| 0 <= k < i ==> #[trigger] offset_of(self@, k) < pos,
            decreases self@.len() - i,
        {
            proof {
                assert(self@.take(i + 1).drop_last() =~= self@.take(i as int));
                lemma_offsets_grow(self@, i + 1, self@.len() as int);
            }
            bytes += char_width(self.remaining[i]);
            i += 1;
        }
        if bytes == pos {
            Some(i)
        } else {
            proof {
                assert forall|k: int| 0 <= k <= self@.len() implies #[trigger] offset_of(self@, k)
                    != pos by {
                    if k >= i {
                        lemma_offsets_grow(self@, i as int, k);
                    }
                }
            }
            None
        }
    }

    /// Takes the first `count` characters off the text and hands them back
    /// as a string; `bytes` is their length in bytes, by which the position in
    /// the line moves on.
    pub fn consume_chars(&mut self, count: usize, bytes: usize) -> (cut: String)
        requires
            old(self).wf(),
            count <= old(self)@.len(),
            bytes == offset_of(old(self)@, count as int),
        ensures
            final(self).wf(),
            cut@ == old(self)@.take(count as int),
            final(self)@ == old(self)@.skip(count as int),
            final(self).pos_in_line == old(self).pos_in_line + bytes,
            final(self).from_lineno == old(self).from_lineno,
            final(self).to_lineno == old(self).to_lineno,
    {
        proof {
            lemma_byte_len_split(self@, count as int);
        }
        let cut = string_of(&self.remaining, 0, count);
        let rest = self.remaining.split_off(count);
        self.remaining = rest;
        self.pos_in_line = self.pos_in_line + bytes as u32;
        proof {
            assert(final(self)@ =~= old(self)@.skip(count as int));
            assert(cut@ =~= old(self)@.take(count as int));
        }
        cut
    }

    /// Takes the first `cutpos` bytes off the text and hands them back as a
    /// string. The position in the line moves on by `cutpos`.
    pub fn consume(&mut self, cutpos: usize) -> (cut: String)
        requires
            old(self).wf(),
            is_boundary(old(self)@, cutpos as int),
        ensures
            final(self).wf(),
            cut@ == old(self)@.take(index_at(old(self)@, cutpos as int)),
            final(self)@ == old(self)@.skip(index_at(old(self)@, cutpos as int)),
            final(self).pos_in_line == old(self).pos_in_line + cutpos,
            final(self).from_lineno == old(self).from_lineno,
            final(self).to_lineno == old(self).to_lineno,
    {
        match self.locate(cutpos) {
            Some(count) => {
                proof {
                    lemma_index_at(self@, count as int);
                }
                self.consume_chars(count, cutpos)
            },
            None => {
                proof {
                    assert(false);
                }
                String::new()
            },
        }
    }

    /// A copy of the feeder.
    pub fn duplicate(&self) -> (copy: Feeder)
        ensures
            copy@ == self@,
            copy.from_lineno == self.from_lineno,
            copy.to_lineno == self.to_lineno,
            copy.pos_in_line == self.pos_in_line,
    {
        let remaining = self.remaining.clone();
        proof {
            assert(remaining@ =~= self.remaining@);
        }
        Feeder {
            remaining: remaining,
            from_lineno: self.from_lineno,
            to_lineno: self.to_lineno,
            pos_in_line: self.pos_in_line,
        }
    }

    /// Goes back to an earlier state of the feeder.
    pub fn rewind(&mut self, backup: Feeder)
        ensures
            *final(self) == backup,
    {
        *self = backup;
    }
}

} // verus!
