//! A filtered enumeration: every nonzero byte value, in ascending order.
//!
//! This is the factory sequence that nonzero-integer wrapper types build on:
//! the full enumeration of the underlying integer with the zero skipped
//! over, so that exactly the representable nonzero values appear.

use vstd::prelude::*;
use crate::impls::primitive::{all_u8s, lemma_u8_iter_shape};
use crate::{Exhaust, FactorySource};

verus! {

/// The canonical enumeration of the nonzero byte values: 1 through 255, in
/// ascending order.
pub open spec fn all_nonzero_u8s() -> Seq<u8> {
    Seq::new(255, |i: int| (i + 1) as u8)
}

/// Iterator over every nonzero byte value, in ascending order: the
/// enumeration of `u8` with the zero filtered out.
pub struct ExhaustNonZero {
    inner: <u8 as Exhaust>::Iter,
}

impl ExhaustNonZero {
    /// Begin the enumeration of every nonzero byte value.
    pub fn new() -> (r: Self)
        ensures
            r.wf(),
            r.remaining() == all_nonzero_u8s(),
    {
        let r = ExhaustNonZero { inner: u8::exhaust_factories() };
        proof {
            assert(r.remaining() =~= all_nonzero_u8s());
        }
        r
    }
}

impl FactorySource for ExhaustNonZero {
    type Item = u8;

    closed spec fn wf(&self) -> bool {
        self.inner.wf()
    }

    closed spec fn remaining(&self) -> Seq<u8> {
        if self.inner.remaining().len() == 256 {
            all_nonzero_u8s()
        } else {
            self.inner.remaining()
        }
    }

    fn next(&mut self) -> (r: Option<u8>)
        ensures
            final(self).wf(),
            match r {
                Some(item) => old(self).remaining().len() > 0
                    && item.deep_view() == old(self).remaining()[0]
                    && final(self).remaining() == old(self).remaining().skip(1),
                None => old(self).remaining().len() == 0
                    && final(self).remaining() == old(self).remaining(),
            },
    {
        match self.inner.next() {
            None => None,
            Some(value) => {
                proof {
                    crate::impls::primitive::lemma_u8_iter_shape(&old(self).inner);
                }
                if value == 0 {
                    // Only the very first pull can see the zero; skip it.
                    proof {
                        let p: int = 256 - old(self).inner.remaining().len();
                        assert(all_u8s().skip(p)[0] == (p as u8));
                        assert(p == 0);
                        assert(old(self).inner.remaining() =~= all_u8s());
                        assert(old(self).remaining() =~= all_nonzero_u8s());
                    }
                    match self.inner.next() {
                        Some(value_after_zero) => {
                            proof {
                                assert(final(self).remaining()
                                    =~= old(self).remaining().skip(1));
                            }
                            Some(value_after_zero)
                        }
                        None => {
                            proof {
                                assert(false);
                            }
                            None
                        }
                    }
                } else {
                    proof {
                        let p: int = 256 - old(self).inner.remaining().len();
                        assert(all_u8s().skip(p)[0] == (p as u8));
                        assert(p > 0);
                        assert(old(self).inner.remaining().len() < 256);
                        assert(final(self).remaining()
                            =~= old(self).remaining().skip(1));
                    }
                    Some(value)
                }
            }
        }
    }

    fn size_hint(&self) -> (r: (usize, Option<usize>))
        ensures
            r.0 <= self.remaining().len(),
            match r.1 {
                Some(upper) => self.remaining().len() <= upper,
                None => true,
            },
    {
        let (lower, upper) = self.inner.size_hint();
        let adjusted: usize = if lower > 0 { lower - 1 } else { 0 };
        (adjusted, upper)
    }
}

} // verus!
