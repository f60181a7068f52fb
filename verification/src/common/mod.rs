//! A forward-only source of items that also accepts items handed back to it.

use vstd::prelude::*;

pub mod fuzzer;
pub mod text;

verus! {

/// A source of items with an "unget" stack in front of it.
///
/// Items that were pushed back come out first, the latest push first; after
/// them come the items of the wrapped source, in the order of the source.
pub struct PushbackIterator<A> {
    /// The items of the wrapped source that were not handed out yet, held
    /// back to front so that the next one is the last element.
    around: Vec<A>,
    /// The items that were pushed back, the latest one last.
    stack: Vec<A>,
}

impl<A> View for PushbackIterator<A> {
    type V = Seq<A>;

    /// The items that successive calls of `next` will hand out, in order.
    closed spec fn view(&self) -> Seq<A> {
        Seq::new(
            self.stack@.len() + self.around@.len(),
            |i: int|
                if i < self.stack@.len() {
                    self.stack@[self.stack@.len() - 1 - i]
                } else {
                    self.around@[self.around@.len() - 1 - (i - self.stack@.len())]
                },
        )
    }
}

impl<A> PushbackIterator<A> {
    /// Wraps the items of `input`; nothing is pushed back yet.
    pub fn new(input: Vec<A>) -> (result: PushbackIterator<A>)
        ensures
            result@ == input@,
    {
        let ghost items = input@;
        let mut input = input;
        let mut around: Vec<A> = Vec::new();
        while input.len() > 0
            invariant
                input@.len() + around@.len() == items.len(),
                forall|i: int| 0 <= i < input@.len() ==> input@[i] == items[i],
                forall|i: int|
                    0 <= i < around@.len() ==> around@[i] == items[items.len() - 1 - i],
            decreases input@.len(),
        {
            match input.pop() {
                Some(item) => around.push(item),
                None => {},
            }
        }
        let result = PushbackIterator { around, stack: Vec::new() };
        assert(result@ =~= items);
        result
    }

    /// Hands `item` back: it is the next item to come out.
    pub fn push(&mut self, item: A)
        ensures
            final(self)@ == seq![item] + old(self)@,
    {
        self.stack.push(item);
        assert(self@ =~= seq![item] + old(self)@);
    }

    /// Takes the next item: the latest one pushed back if there is any,
    /// otherwise the next one of the wrapped source, otherwise nothing.
    pub fn next(&mut self) -> (result: Option<A>)
        ensures
            old(self)@.len() == 0 ==> result is None && final(self)@ == old(self)@,
            old(self)@.len() > 0 ==> result == Some(old(self)@[0]) && final(self)@ == old(
                self,
            )@.skip(1),
    {
        let result = match self.stack.pop() {
            None => self.around.pop(),
            some => some,
        };
        assert(old(self)@.len() == 0 ==> self@ =~= old(self)@);
        assert(old(self)@.len() > 0 ==> self@ =~= old(self)@.skip(1));
        result
    }
}

} // verus!
