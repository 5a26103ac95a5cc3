//! Intervals of ray parameters.
use crate::scalar::Scalar;
use vstd::prelude::*;

verus! {

/// The parameters `min ..= max` over which a ray is inside or on a solid.
#[derive(Clone, Copy, Debug, PartialEq, Eq, Structural)]
pub struct IntersectionResult {
    pub min: Scalar,
    pub max: Scalar,
}

impl IntersectionResult {
    /// The interval holds at least one parameter.
    pub open spec fn is_ordered(self) -> bool {
        self.min@ <= self.max@
    }

    /// The parameter `t` lies in the interval.
    pub open spec fn contains(self, t: Scalar) -> bool {
        self.min@ <= t@ <= self.max@
    }

    /// Every parameter of `other` lies in the interval.
    pub open spec fn encloses(self, other: IntersectionResult) -> bool {
        self.min@ <= other.min@ && other.max@ <= self.max@
    }

    /// The interval that holds no parameter: it runs from plus infinity down
    /// to minus infinity, so that merging any parameter into it gives the
    /// interval of that parameter alone.
    pub open spec fn empty() -> IntersectionResult {
        IntersectionResult { min: Scalar::max_value(), max: Scalar::min_value() }
    }

    pub open spec fn spec_merge(self, param: Scalar) -> IntersectionResult {
        IntersectionResult { min: self.min.min(param), max: self.max.max(param) }
    }

    pub open spec fn spec_merge_slice(self, params: Seq<Scalar>) -> IntersectionResult
        decreases params.len(),
    {
        if params.len() == 0 {
            self
        } else {
            self.spec_merge_slice(params.drop_last()).spec_merge(params.last())
        }
    }

    pub open spec fn spec_from_slice(roots: Seq<Scalar>) -> IntersectionResult {
        IntersectionResult::empty().spec_merge_slice(roots)
    }

    /// The interval with both ends of `other` merged into it.
    pub open spec fn spec_join(self, other: IntersectionResult) -> IntersectionResult {
        self.spec_merge(other.min).spec_merge(other.max)
    }

    pub open spec fn spec_from_set(results: Seq<Option<IntersectionResult>>) -> Option<
        IntersectionResult,
    >
        decreases results.len(),
    {
        if results.len() == 0 {
            None
        } else {
            match IntersectionResult::spec_from_set(results.drop_last()) {
                None => results.last(),
                Some(acc) => match results.last() {
                    None => Some(acc),
                    Some(v) => Some(acc.spec_join(v)),
                },
            }
        }
    }

    pub open spec fn spec_overlap(&self, other: &IntersectionResult) -> Option<IntersectionResult> {
        if self.min@ > other.max@ || other.min@ > self.max@ {
            None
        } else {
            Some(IntersectionResult { min: self.min.max(other.min), max: self.max.min(other.max) })
        }
    }

    /// Merging parameters only widens an interval, and each new end is an
    /// old end or one of the parameters.
    pub proof fn lemma_merge_slice(self, params: Seq<Scalar>)
        ensures
            self.spec_merge_slice(params).min@ <= self.min@,
            self.spec_merge_slice(params).max@ >= self.max@,
            forall|i: int|
                0 <= i < params.len() ==> self.spec_merge_slice(params).contains(#[trigger] params[i]),
            self.spec_merge_slice(params).min == self.min || params.contains(
                self.spec_merge_slice(params).min,
            ),
            self.spec_merge_slice(params).max == self.max || params.contains(
                self.spec_merge_slice(params).max,
            ),
        decreases params.len(),
    {
        if params.len() > 0 {
            let init = params.drop_last();
            let before = self.spec_merge_slice(init);
            let after = self.spec_merge_slice(params);
            self.lemma_merge_slice(init);
            assert forall|i: int| 0 <= i < params.len() implies after.contains(
                #[trigger] params[i],
            ) by {
                if i < init.len() {
                    assert(before.contains(init[i]));
                }
            }
        }
    }

    /// The interval of a non-empty list of roots runs from the least root
    /// to the greatest.
    pub proof fn lemma_from_slice(roots: Seq<Scalar>)
        requires
            roots.len() > 0,
        ensures
            roots.contains(IntersectionResult::spec_from_slice(roots).min),
            roots.contains(IntersectionResult::spec_from_slice(roots).max),
            forall|i: int|
                0 <= i < roots.len() ==> IntersectionResult::spec_from_slice(roots).contains(
                    #[trigger] roots[i],
                ),
            IntersectionResult::spec_from_slice(roots).is_ordered(),
    {
        IntersectionResult::empty().lemma_merge_slice(roots);
    }

    /// An interval in its order stays in its order when a parameter is
    /// merged into it; it then holds the parameter and all it held before,
    /// and it is the narrowest such interval.
    pub proof fn lemma_merge(self, param: Scalar)
        requires
            self.is_ordered(),
        ensures
            self.spec_merge(param).is_ordered(),
            self.spec_merge(param).contains(param),
            self.spec_merge(param).encloses(self),
            forall|other: IntersectionResult|
                other.encloses(self) && other.contains(param) ==> #[trigger] other.encloses(
                    self.spec_merge(param),
                ),
    {
    }

    /// Merging parameters that an interval holds already leaves it as it
    /// is.
    pub proof fn lemma_merge_slice_absorbed(self, params: Seq<Scalar>)
        requires
            forall|i: int| 0 <= i < params.len() ==> self.contains(#[trigger] params[i]),
        ensures
            self.spec_merge_slice(params) == self,
        decreases params.len(),
    {
        if params.len() > 0 {
            let init = params.drop_last();
            assert forall|i: int| 0 <= i < init.len() implies self.contains(#[trigger] init[i]) by {}
            self.lemma_merge_slice_absorbed(init);
        }
    }

    /// Joining an interval in its order to one that encloses it gives the
    /// enclosing one.
    pub proof fn lemma_join_enclosing(self, other: IntersectionResult)
        requires
            other.is_ordered(),
            other.encloses(self),
        ensures
            self.spec_join(other) == other,
    {
    }

    /// Of intervals that are each in their order, the bounding interval is
    /// in its order and encloses each of them, and it is tight: it begins
    /// where one of them begins and ends where one of them ends.
    pub proof fn lemma_from_set(results: Seq<Option<IntersectionResult>>)
        requires
            forall|i: int|
                0 <= i < results.len() ==> (#[trigger] results[i] matches Some(v) ==> v.is_ordered()),
        ensures
            IntersectionResult::spec_from_set(results) is None <==> forall|i: int|
                0 <= i < results.len() ==> #[trigger] results[i] is None,
            IntersectionResult::spec_from_set(results) matches Some(u) ==> {
                &&& u.is_ordered()
                &&& forall|i: int|
                    0 <= i < results.len() ==> (#[trigger] results[i] matches Some(v)
                        ==> u.encloses(v))
                &&& exists|i: int|
                    0 <= i < results.len() && (#[trigger] results[i] matches Some(v) && v.min
                        == u.min)
                &&& exists|i: int|
                    0 <= i < results.len() && (#[trigger] results[i] matches Some(v) && v.max
                        == u.max)
            },
        decreases results.len(),
    {
        if results.len() > 0 {
            let init = results.drop_last();
            assert forall|i: int| 0 <= i < init.len() implies init[i] == results[i] by {}
            IntersectionResult::lemma_from_set(init);
        }
    }

    /// The interval of the given roots: from the least to the greatest.
    /// Of no roots it is the empty interval.
    pub fn from_slice(roots: &[Scalar]) -> (r: IntersectionResult)
        ensures
            r == IntersectionResult::spec_from_slice(roots@),
            roots@.len() == 0 ==> r == IntersectionResult::empty(),
            roots@.len() > 0 ==> roots@.contains(r.min) && roots@.contains(r.max),
            forall|i: int| 0 <= i < roots@.len() ==> r.contains(#[trigger] roots@[i]),
    {
        let mut min = Scalar::max_value();
        let mut max = Scalar::min_value();
        let mut i: usize = 0;
        while i < roots.len()
            invariant
                i <= roots@.len(),
                (IntersectionResult { min, max }) == IntersectionResult::spec_from_slice(
                    roots@.take(i as int),
                ),
            decreases roots@.len() - i,
        {
            let n = roots[i];
            proof {
                let next = roots@.take(i + 1);
                assert(next.drop_last() == roots@.take(i as int));
            }
            min = min.min(n);
            max = max.max(n);
            i += 1;
        }
        proof {
            assert(roots@.take(i as int) == roots@);
            if roots@.len() > 0 {
                IntersectionResult::lemma_from_slice(roots@);
            }
        }
        IntersectionResult { min, max }
    }

    /// Widens the interval so that it holds `param`: the lower end becomes
    /// the smaller of itself and `param`, the upper end the larger.
    pub fn merge(&mut self, param: Scalar)
        ensures
            *final(self) == old(self).spec_merge(param),
            final(self).min@ == if param@ < old(self).min@ { param@ } else { old(self).min@ },
            final(self).max@ == if param@ > old(self).max@ { param@ } else { old(self).max@ },
    {
        if param.lt(self.min) {
            self.min = param;
        }
        if param.gt(self.max) {
            self.max = param;
        }
    }

    /// Widens the interval so that it holds every one of `params`.
    pub fn merge_slice(&mut self, params: &[Scalar])
        ensures
            *final(self) == old(self).spec_merge_slice(params@),
            final(self).min@ <= old(self).min@,
            final(self).max@ >= old(self).max@,
            forall|i: int| 0 <= i < params@.len() ==> final(self).contains(#[trigger] params@[i]),
    {
        let mut i: usize = 0;
        while i < params.len()
            invariant
                i <= params@.len(),
                *self == old(self).spec_merge_slice(params@.take(i as int)),
            decreases params@.len() - i,
        {
            proof {
                let next = params@.take(i + 1);
                assert(next.drop_last() == params@.take(i as int));
            }
            self.merge(params[i]);
            i += 1;
        }
        proof {
            assert(params@.take(i as int) == params@);
            old(self).lemma_merge_slice(params@);
        }
    }

    /// The parameters common to two intervals. Absent when one interval
    /// begins after the other has ended.
    #[verifier::when_used_as_spec(spec_overlap)]
    pub fn overlap(&self, other: &IntersectionResult) -> (r: Option<IntersectionResult>)
        ensures
            r == self.spec_overlap(other),
            forall|t: Scalar|
                (self.contains(t) && other.contains(t)) <==> (r is Some && #[trigger] r.unwrap().contains(
                    t,
                )),
    {
        if self.min.gt(other.max) || other.min.gt(self.max) {
            None
        } else {
            Some(IntersectionResult { min: self.min.max(other.min), max: self.max.min(other.max) })
        }
    }

    /// The interval that bounds all the intervals present in `results`:
    /// the first one present, with both ends of every later one merged
    /// into it. Absent when none is present.
    pub fn from_set(results: &[Option<IntersectionResult>]) -> (r: Option<IntersectionResult>)
        ensures
            r == IntersectionResult::spec_from_set(results@),
            r is None <==> forall|i: int| 0 <= i < results@.len() ==> results@[i] is None,
    {
        let mut result: Option<IntersectionResult> = None;
        let mut i: usize = 0;
        while i < results.len()
            invariant
                i <= results@.len(),
                result == IntersectionResult::spec_from_set(results@.take(i as int)),
                result is None <==> forall|j: int| 0 <= j < i ==> results@[j] is None,
            decreases results@.len() - i,
        {
            proof {
                let next = results@.take(i + 1);
                assert(next.drop_last() == results@.take(i as int));
            }
            match result {
                None => {
                    result = results[i];
                },
                Some(mut acc) => {
                    if let Some(v) = results[i] {
                        acc.merge(v.min);
                        acc.merge(v.max);
                        result = Some(acc);
                    }
                },
            }
            i += 1;
        }
        proof {
            assert(results@.take(i as int) == results@);
        }
        result
    }
}

} // verus!
