//! What the feedback controller keeps and reports beside its arithmetic: the
//! bounded history that its derivative is smoothed over, and its telemetry.

use crate::metrics::{metric_line, opt_text, pair_texts, report_metric, MetricEvent};
use vstd::prelude::*;

verus! {

/// The samples of the latest updates: at most one more than the number of
/// filter points. Once the window is full, a new sample takes the place of
/// the oldest.
pub struct SampleWindow<T> {
    slots: Vec<T>,
    oldest: usize,
    filter_points: usize,
}

/// The newest `n` elements of `s`, or all of `s` where it holds fewer.
pub open spec fn newest<T>(s: Seq<T>, n: int) -> Seq<T> {
    if s.len() > n {
        s.skip(s.len() - n)
    } else {
        s
    }
}

/// Each element of `s` but the first, paired with the one before it: the
/// earlier of the two comes first. A sequence of fewer than two elements has
/// no such pair.
pub open spec fn neighbours<T>(s: Seq<T>) -> Seq<(T, T)> {
    Seq::new(
        if s.len() > 0 {
            (s.len() - 1) as nat
        } else {
            0
        },
        |i: int| (s[i], s[i + 1]),
    )
}

impl<T> View for SampleWindow<T> {
    type V = Seq<T>;

    /// The samples in the window, oldest first.
    closed spec fn view(&self) -> Seq<T> {
        self.slots@.skip(self.oldest as int) + self.slots@.take(self.oldest as int)
    }
}

impl<T> SampleWindow<T> {
    #[verifier::type_invariant]
    spec fn well_formed(self) -> bool {
        &&& self.slots.len() <= self.filter_points + 1
        &&& self.oldest <= self.slots.len()
        &&& self.oldest > 0 ==> self.oldest < self.slots.len() && self.slots.len()
            == self.filter_points + 1
    }

    /// The number of samples that the window holds at most.
    pub closed spec fn capacity(&self) -> int {
        self.filter_points + 1
    }

    /// An empty window over `filter_points` filter points.
    pub fn new(filter_points: usize) -> (w: SampleWindow<T>)
        ensures
            w@ == Seq::<T>::empty(),
            w.capacity() == filter_points + 1,
    {
        let w = SampleWindow { slots: Vec::new(), oldest: 0, filter_points };
        assert(w@ =~= Seq::<T>::empty());
        w
    }

    /// Takes in the sample of an update. In a full window it takes the place
    /// of the oldest sample.
    pub fn push(&mut self, sample: T)
        ensures
            final(self)@ == newest(old(self)@.push(sample), old(self).capacity()),
            final(self).capacity() == old(self).capacity(),
    {
        proof {
            use_type_invariant(&*self);
        }
        // The fields are taken out to be changed one after the other, and
        // put back together.
        let mut taken = SampleWindow::new(self.filter_points);
        core::mem::swap(self, &mut taken);
        let SampleWindow { mut slots, mut oldest, filter_points } = taken;
        let ghost before = slots@;
        if slots.len() <= filter_points {
            slots.push(sample);
            assert(slots@.skip(0) + slots@.take(0) =~= (before.skip(0) + before.take(0)).push(
                sample,
            ));
        } else {
            slots[oldest] = sample;
            let next: usize = if oldest + 1 == slots.len() {
                0
            } else {
                oldest + 1
            };
            assert(slots@.skip(next as int) + slots@.take(next as int) =~= (before.skip(
                oldest as int,
            ) + before.take(oldest as int)).push(sample).skip(1));
            oldest = next;
        }
        *self = SampleWindow { slots, oldest, filter_points };
    }

    /// The number of samples in the window.
    pub fn len(&self) -> (n: usize)
        ensures
            n == self@.len(),
    {
        proof {
            use_type_invariant(self);
        }
        self.slots.len()
    }

    /// The sample that has `index` older ones before it, where the window
    /// holds that many.
    pub fn get(&self, index: usize) -> (r: Option<&T>)
        ensures
            r == if index < self@.len() {
                Some(&self@[index as int])
            } else {
                None
            },
    {
        proof {
            use_type_invariant(self);
        }
        if index >= self.slots.len() {
            return None;
        }
        let behind = self.slots.len() - self.oldest;
        if index < behind {
            Some(&self.slots[self.oldest + index])
        } else {
            Some(&self.slots[index - behind])
        }
    }
}

impl<T: Copy> SampleWindow<T> {
    /// The samples in the window, oldest first.
    pub fn samples(&self) -> (r: Vec<T>)
        ensures
            r@ == self@,
    {
        let mut found: Vec<T> = Vec::new();
        let mut i: usize = 0;
        while i < self.len()
            invariant
                i <= self@.len(),
                found@ == self@.take(i as int),
            decreases self@.len() - i,
        {
            match self.get(i) {
                Some(sample) => found.push(*sample),
                None => {},
            }
            assert(found@ =~= self@.take(i as int + 1));
            i += 1;
        }
        assert(self@.take(i as int) =~= self@);
        found
    }

    /// The pairs of neighbouring samples, oldest first: what a derivative
    /// over the window is summed from. A window of fewer than two samples
    /// gives none.
    pub fn pairs(&self) -> (r: Vec<(T, T)>)
        ensures
            r@ == neighbours(self@),
            self@.len() < 2 ==> r@.len() == 0,
    {
        let mut found: Vec<(T, T)> = Vec::new();
        let mut i: usize = 1;
        while i < self.len()
            invariant
                1 <= i,
                found.len() == i - 1,
                i <= self@.len() || found.len() == 0,
                forall|k: int| 0 <= k < found.len() ==> found@[k] == (self@[k], self@[k + 1]),
            decreases self@.len() - i,
        {
            match (self.get(i - 1), self.get(i)) {
                (Some(earlier), Some(later)) => found.push((*earlier, *later)),
                _ => {},
            }
            i += 1;
        }
        assert(found@ =~= neighbours(self@));
        found
    }
}

/// The telemetry sample of one controller update: the proportional, the
/// integral and the derivative contribution and their sum, each written as
/// given, for the point tagged `tag`.
pub fn controller_sample(
    tag: &str,
    p: &str,
    i: &str,
    d: &str,
    v: &str,
    hostname: Option<&str>,
) -> (r: MetricEvent)
    ensures
        r matches MetricEvent::Metric(line) && line@ == metric_line(
            opt_text(hostname),
            seq![("pid"@, tag@)],
            seq![("p"@, p@), ("i"@, i@), ("d"@, d@), ("v"@, v@)],
        ),
{
    let mut fields: Vec<(String, String)> = Vec::new();
    fields.push(("p".to_owned(), p.to_owned()));
    fields.push(("i".to_owned(), i.to_owned()));
    fields.push(("d".to_owned(), d.to_owned()));
    fields.push(("v".to_owned(), v.to_owned()));
    let mut tags: Vec<(String, String)> = Vec::new();
    tags.push(("pid".to_owned(), tag.to_owned()));
    assert(pair_texts(fields@) =~= seq![("p"@, p@), ("i"@, i@), ("d"@, d@), ("v"@, v@)]);
    assert(pair_texts(tags@) =~= seq![("pid"@, tag@)]);
    report_metric(fields.as_slice(), tags.as_slice(), hostname)
}

} // verus!
