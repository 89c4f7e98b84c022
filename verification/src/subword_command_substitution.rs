//! A command substitution `$( ... )` inside a word.

use crate::feeder::DebugInfo;
use crate::text::{chars_of, split_fields, split_on, texts};
use vstd::prelude::*;

verus! {

/// A command substitution as it stands in the text. The command itself is
/// run by the caller, who hands what it wrote to [`Self::eval`].
#[derive(Debug)]
pub struct SubWordCommandSubstitution {
    pub text: String,
    pub pos: DebugInfo,
}

impl SubWordCommandSubstitution {
    /// The words that the substitution stands for, given what its command
    /// wrote: the output as one word where a value is asked for, else the
    /// pieces of the output between blanks. Either way they come as one list
    /// of words.
    pub fn eval(&self, output: &String, as_value: bool) -> (words: Vec<Vec<String>>)
        ensures
            words@.len() == 1,
            as_value ==> words@[0]@.len() == 1 && words@[0]@[0]@ == output@,
            !as_value ==> texts(words@[0]@) == split_fields(output@, ' '),
    {
        let mut words: Vec<Vec<String>> = Vec::new();
        if as_value {
            let mut one: Vec<String> = Vec::new();
            one.push(output.clone());
            words.push(one);
        } else {
            let chars = chars_of(output.as_str());
            proof {
                assert(chars@.take(chars@.len() as int) =~= chars@);
            }
            words.push(split_on(&chars, chars.len(), ' '));
        }
        words
    }

    /// The text of the substitution.
    pub fn get_text(&self) -> (text: String)
        ensures
            text@ == self.text@,
    {
        self.text.clone()
    }
}

} // verus!
