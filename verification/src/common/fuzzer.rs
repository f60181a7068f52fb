//! Running a batch of generated trials against one target.

use vstd::prelude::*;

verus! {

/// A source of trial inputs together with the trial itself.
///
/// An implementation says how one input is made and what is done with it;
/// `run_tests` makes and tries `num_tests` inputs, one after the other.
pub trait Fuzzer: Sized {
    type Item;

    /// Makes the input of one trial.
    fn gen_one(&mut self) -> Self::Item;

    /// Runs one trial on `item`.
    fn run_test(&mut self, item: Self::Item);

    /// The number of trials in a batch: 100000, unless an implementation
    /// says otherwise.
    fn num_tests(&self) -> (result: u32)
        default_ensures
            result == 100000,
    {
        100000
    }

    /// Runs a batch. The number of trials is asked of `num_tests` once, at
    /// the start. Each trial makes an input with `gen_one` and hands it to
    /// `run_test`, and starts in the state that the trial before it left.
    ///
    /// In the contract, `states` holds the state before the first trial
    /// and the state after each trial.
    fn run_tests(&mut self)
        ensures
            exists|count: u32, states: Seq<Self>|
                {
                    &&& call_ensures(Self::num_tests, (&*old(self),), count)
                    &&& states.len() == count + 1
                    &&& states[0] == *old(self)
                    &&& states[count as int] == *final(self)
                    &&& forall|i: int|
                        0 <= i < count ==> exists|
                            making: &mut Self,
                            trying: &mut Self,
                            item: Self::Item,
                        |
                            {
                                &&& mut_ref_current(making) == #[trigger] states[i]
                                &&& #[trigger] call_ensures(Self::gen_one, (making,), item)
                                &&& mut_ref_current(trying) == mut_ref_future(making)
                                &&& #[trigger] call_ensures(Self::run_test, (trying, item), ())
                                &&& mut_ref_future(trying) == states[i + 1]
                            }
                },
    {
        let count: u32 = self.num_tests();
        let ghost mut states: Seq<Self> = seq![*self];
        let mut done: u32 = 0;
        while done < count
            invariant
                done <= count,
                call_ensures(Self::num_tests, (&*old(self),), count),
                states.len() == done + 1,
                states[0] == *old(self),
                states[done as int] == *self,
                forall|i: int|
                    0 <= i < done ==> exists|
                        making: &mut Self,
                        trying: &mut Self,
                        item: Self::Item,
                    |
                        {
                            &&& mut_ref_current(making) == #[trigger] states[i]
                            &&& #[trigger] call_ensures(Self::gen_one, (making,), item)
                            &&& mut_ref_current(trying) == mut_ref_future(making)
                            &&& #[trigger] call_ensures(Self::run_test, (trying, item), ())
                            &&& mut_ref_future(trying) == states[i + 1]
                        },
            decreases count - done,
        {
            let item = self.gen_one();
            self.run_test(item);
            proof {
                states = states.push(*self);
            }
            done += 1;
        }
    }
}

} // verus!
