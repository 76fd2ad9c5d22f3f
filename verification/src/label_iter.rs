//! Labels handed over one at a time.
use vstd::prelude::*;

verus! {

/// A source of labels, each a key and a value, that is used up as it is
/// read.
pub trait LabelIter: Sized {
    type LabelKey: View<V = Seq<char>>;

    type LabelVal: View<V = Seq<char>>;

    /// The labels that are still to come.
    spec fn remaining(&self) -> Seq<(Seq<char>, Seq<char>)>;

    /// The next label, or nothing when all have been handed over.
    fn next(&mut self) -> (r: Option<(Self::LabelKey, Self::LabelVal)>)
        ensures
            match r {
                Some(label) => {
                    &&& old(self).remaining().len() > 0
                    &&& (label.0@, label.1@) == old(self).remaining()[0]
                    &&& final(self).remaining() == old(self).remaining().drop_first()
                },
                None => old(self).remaining().len() == 0 && final(self).remaining().len() == 0,
            },
    ;

    /// All labels that are still to come, in their order.
    fn iter(self) -> (r: Vec<(Self::LabelKey, Self::LabelVal)>)
        ensures
            r@.len() == self.remaining().len(),
            forall|i: int|
                0 <= i < r@.len() ==> ((#[trigger] r@[i]).0@, r@[i].1@) == self.remaining()[i],
    {
        let ghost all = self.remaining();
        let mut source = self;
        let mut r: Vec<(Self::LabelKey, Self::LabelVal)> = Vec::new();
        loop
            invariant
                all == self.remaining(),
                r@.len() + source.remaining().len() == all.len(),
                source.remaining() == all.skip(r@.len() as int),
                forall|i: int| 0 <= i < r@.len() ==> ((#[trigger] r@[i]).0@, r@[i].1@) == all[i],
            decreases source.remaining().len(),
        {
            match source.next() {
                Some(label) => {
                    proof {
                        assert(all.skip(r@.len() as int).drop_first() =~= all.skip(r@.len() as int + 1));
                    }
                    r.push(label);
                },
                None => {
                    return r;
                },
            }
        }
    }
}

/// Use this when NoLabels are present
pub struct NoLabels;

impl LabelIter for NoLabels {
    type LabelKey = &'static str;

    type LabelVal = &'static str;

    open spec fn remaining(&self) -> Seq<(Seq<char>, Seq<char>)> {
        Seq::empty()
    }

    fn next(&mut self) -> (r: Option<(Self::LabelKey, Self::LabelVal)>) {
        None
    }
}

} // verus!
