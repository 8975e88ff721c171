//! The text of the search box.

use vstd::prelude::*;

verus! {

/// The text of the search box, with the number of its characters, which is
/// where the cursor stands.
#[derive(Debug)]
pub struct SearchInput {
    pub value: String,
    pub index: usize,
}

impl View for SearchInput {
    type V = Seq<char>;

    open spec fn view(&self) -> Seq<char> {
        self.value@
    }
}

impl SearchInput {
    /// The cursor stands behind the last character.
    pub open spec fn well_formed(self) -> bool {
        self.index == self.value@.len()
    }

    /// An empty search box.
    pub fn new() -> (input: SearchInput)
        ensures
            input@ == Seq::<char>::empty(),
            input.well_formed(),
    {
        SearchInput { value: String::new(), index: 0 }
    }

    /// Empties the search box.
    pub fn clear(&mut self)
        ensures
            final(self)@ == Seq::<char>::empty(),
            final(self).index == 0,
            final(self).well_formed(),
    {
        self.value.clear();
        self.index = 0;
    }

    /// Puts `c` at the end of the text.
    pub fn push(&mut self, c: char)
        requires
            old(self).index < usize::MAX,
        ensures
            final(self)@ == old(self)@.push(c),
            final(self).index == old(self).index + 1,
            old(self).well_formed() ==> final(self).well_formed(),
    {
        self.value.push(c);
        self.index += 1;
    }

    /// Takes the last character off the text; an empty text stays empty.
    pub fn pop(&mut self)
        requires
            old(self).well_formed(),
        ensures
            final(self)@ == (if old(self)@.len() > 0 {
                old(self)@.drop_last()
            } else {
                old(self)@
            }),
            final(self).well_formed(),
    {
        let last = self.value.pop();
        if self.index > 0 {
            self.index -= 1;
        }
    }

    /// Whether the search box is empty.
    pub fn is_empty(&self) -> (r: bool)
        ensures
            r == (self@.len() == 0),
    {
        self.value.as_str().is_empty()
    }

    /// The text of the search box.
    pub fn as_str(&self) -> (text: &str)
        ensures
            text@ == self@,
    {
        self.value.as_str()
    }
}

impl Default for SearchInput {
    fn default() -> (input: SearchInput)
        ensures
            input@ == Seq::<char>::empty(),
            input.well_formed(),
    {
        SearchInput::new()
    }
}

} // verus!
