//! Enumeration of the text-alignment enum: a sum of three unit variants.

use vstd::prelude::*;
use crate::{Exhaust, FactorySource};

verus! {

/// Possible alignments of formatted text.
#[derive(Clone, Copy, Debug, PartialEq, Eq, Structural)]
pub enum Alignment {
    /// Left-aligned.
    Left,
    /// Right-aligned.
    Right,
    /// Center-aligned.
    Center,
}

impl DeepView for Alignment {
    type V = Alignment;

    open spec fn deep_view(&self) -> Alignment {
        *self
    }
}

/// Iterator over the three values of [`Alignment`], in declaration order.
pub struct ExhaustAlignment {
    /// How many values have been yielded so far (0 to 3).
    yielded: u8,
}

impl FactorySource for ExhaustAlignment {
    type Item = Alignment;

    closed spec fn wf(&self) -> bool {
        true
    }

    closed spec fn remaining(&self) -> Seq<Alignment> {
        if self.yielded == 0 {
            seq![Alignment::Left, Alignment::Right, Alignment::Center]
        } else if self.yielded == 1 {
            seq![Alignment::Right, Alignment::Center]
        } else if self.yielded == 2 {
            seq![Alignment::Center]
        } else {
            Seq::empty()
        }
    }

    fn next(&mut self) -> (r: Option<Alignment>)
        ensures
            final(self).wf(),
            match r {
                Some(item) => old(self).remaining().len() > 0
                    && item.deep_view() == old(self).remaining()[0]
                    && final(self).remaining() == old(self).remaining().skip(1),
                None => old(self).remaining().len() == 0
                    && final(self).remaining() == old(self).remaining(),
            },
    {
        if self.yielded == 0 {
            self.yielded = 1;
            proof {
                assert(old(self).remaining().skip(1) =~= final(self).remaining());
            }
            Some(Alignment::Left)
        } else if self.yielded == 1 {
            self.yielded = 2;
            proof {
                assert(old(self).remaining().skip(1) =~= final(self).remaining());
            }
            Some(Alignment::Right)
        } else if self.yielded == 2 {
            self.yielded = 3;
            proof {
                assert(old(self).remaining().skip(1) =~= final(self).remaining());
            }
            Some(Alignment::Center)
        } else {
            None
        }
    }

    fn size_hint(&self) -> (r: (usize, Option<usize>))
        ensures
            r.0 <= self.remaining().len(),
            match r.1 {
                Some(upper) => self.remaining().len() <= upper,
                None => true,
            },
    {
        let left: usize = if self.yielded >= 3 { 0 } else { 3 - self.yielded as usize };
        (left, Some(left))
    }
}

impl Exhaust for Alignment {
    type Factory = Alignment;

    type Iter = ExhaustAlignment;

    open spec fn all_factories() -> Seq<Alignment> {
        seq![Alignment::Left, Alignment::Right, Alignment::Center]
    }

    open spec fn wf_factory(factory: Alignment) -> bool {
        true
    }

    open spec fn value_spec(factory: Alignment) -> Alignment {
        factory
    }

    open spec fn wf_value(value: Alignment) -> bool {
        true
    }

    fn exhaust_factories() -> (it: ExhaustAlignment)
        ensures
            it.wf(),
            it.remaining() == Self::all_factories(),
    {
        ExhaustAlignment { yielded: 0 }
    }

    fn from_factory(factory: Alignment) -> Alignment {
        factory
    }

    fn clone_factory(factory: &Alignment) -> Alignment {
        *factory
    }

    fn clone_iter(it: &ExhaustAlignment) -> (r: ExhaustAlignment)
        ensures
            it.wf() ==> r.wf(),
            r.remaining() == it.remaining(),
    {
        ExhaustAlignment { yielded: it.yielded }
    }

    proof fn lemma_factories_wf() {
    }

    proof fn lemma_no_duplicates(i: int, j: int) {
    }

    proof fn lemma_exhaustive(value: Alignment) {
        match value {
            Alignment::Left => {
                assert(Self::value_spec(Self::all_factories()[0]) == value);
            }
            Alignment::Right => {
                assert(Self::value_spec(Self::all_factories()[1]) == value);
            }
            Alignment::Center => {
                assert(Self::value_spec(Self::all_factories()[2]) == value);
            }
        }
    }
}

} // verus!
