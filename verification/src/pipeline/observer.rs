//! Observers: named min-max statistics collected during forward passes.
use vstd::prelude::*;

use crate::quant::range::{
    batch_max, batch_min, fold_max, fold_min, is_nan, lemma_fold_max_is_greatest,
    lemma_fold_min_is_least, lemma_max_step_of_batch, lemma_min_step_of_batch, max_bits,
    min_bits, NEG_INFINITY_BITS, POS_INFINITY_BITS,
};

verus! {

/// Collects the running minimum and maximum of the activations it observes,
/// under a name. Values are binary32 bit patterns; NaN values are skipped.
pub struct TensorObserver {
    name: String,
    min_val: u32,
    max_val: u32,
    num_samples: usize,
}

impl View for TensorObserver {
    /// (name, running minimum, running maximum, number of batches)
    type V = (Seq<char>, u32, u32, nat);

    closed spec fn view(&self) -> (Seq<char>, u32, u32, nat) {
        (self.name@, self.min_val, self.max_val, self.num_samples as nat)
    }
}

impl TensorObserver {
    #[verifier::type_invariant]
    closed spec fn inv(self) -> bool {
        !is_nan(self.min_val) && !is_nan(self.max_val)
    }

    /// An observer that has seen nothing: minimum `+inf`, maximum `-inf`.
    pub fn new(name: &str) -> (o: Self)
        ensures
            o@ == (name@, POS_INFINITY_BITS, NEG_INFINITY_BITS, 0nat),
    {
        TensorObserver {
            name: name.to_owned(),
            min_val: POS_INFINITY_BITS,
            max_val: NEG_INFINITY_BITS,
            num_samples: 0,
        }
    }

    /// The name this observer was made with.
    pub fn name(&self) -> (r: &str)
        ensures
            r@ == self@.0,
    {
        self.name.as_str()
    }

    /// The observed minimum.
    pub fn min(&self) -> (r: u32)
        ensures
            r == self@.1,
            !is_nan(r),
    {
        proof {
            use_type_invariant(self);
        }
        self.min_val
    }

    /// The observed maximum.
    pub fn max(&self) -> (r: u32)
        ensures
            r == self@.2,
            !is_nan(r),
    {
        proof {
            use_type_invariant(self);
        }
        self.max_val
    }

    /// The number of batches observed.
    pub fn num_samples(&self) -> (r: usize)
        ensures
            r == self@.3,
    {
        self.num_samples
    }

    /// Folds a batch of activations into the running minimum and maximum and
    /// counts it.
    pub fn observe(&mut self, data: &Vec<u32>)
        requires
            old(self)@.3 < usize::MAX,
        ensures
            final(self)@ == (
                old(self)@.0,
                fold_min(old(self)@.1, data@),
                fold_max(old(self)@.2, data@),
                old(self)@.3 + 1,
            ),
    {
        proof {
            use_type_invariant(&*self);
            lemma_min_step_of_batch(self.min_val, data@);
            lemma_max_step_of_batch(self.max_val, data@);
            lemma_fold_min_is_least(self.min_val, data@);
            lemma_fold_max_is_greatest(self.max_val, data@);
        }
        let batch_lo = batch_min(data);
        let batch_hi = batch_max(data);
        self.min_val = min_bits(self.min_val, batch_lo);
        self.max_val = max_bits(self.max_val, batch_hi);
        self.num_samples = self.num_samples + 1;
    }
}

/// The statistics part of an observer's view.
pub open spec fn stats_of(v: (Seq<char>, u32, u32, nat)) -> (u32, u32, nat) {
    (v.1, v.2, v.3)
}

/// The statistics of a fresh observer.
pub open spec fn fresh_stats() -> (u32, u32, nat) {
    (POS_INFINITY_BITS, NEG_INFINITY_BITS, 0nat)
}

/// The map from names to statistics held by a sequence of observers.
pub open spec fn entries(s: Seq<TensorObserver>) -> Map<Seq<char>, (u32, u32, nat)>
    decreases s.len(),
{
    if s.len() == 0 {
        Map::empty()
    } else {
        entries(s.drop_last()).insert(s.last()@.0, stats_of(s.last()@))
    }
}

/// No two observers share a name.
pub open spec fn names_unique(s: Seq<TensorObserver>) -> bool {
    forall|i: int, j: int|
        0 <= i < s.len() && 0 <= j < s.len() && i != j ==> #[trigger] s[i]@.0 != #[trigger] s[j]@.0
}

proof fn lemma_entries_lookup(s: Seq<TensorObserver>)
    requires
        names_unique(s),
    ensures
        forall|k: Seq<char>|
            #[trigger] entries(s).contains_key(k) <==> exists|i: int|
                0 <= i < s.len() && s[i]@.0 == k,
        forall|i: int| 0 <= i < s.len() ==> entries(s)[#[trigger] s[i]@.0] == stats_of(s[i]@),
    decreases s.len(),
{
    if s.len() > 0 {
        let p = s.drop_last();
        assert(names_unique(p)) by {
            assert forall|i: int, j: int|
                0 <= i < p.len() && 0 <= j < p.len() && i != j implies #[trigger] p[i]@.0
                != #[trigger] p[j]@.0 by {
                assert(p[i] == s[i] && p[j] == s[j]);
            }
        }
        lemma_entries_lookup(p);
        assert forall|k: Seq<char>| #[trigger]
            entries(s).contains_key(k) <==> exists|i: int| 0 <= i < s.len() && s[i]@.0 == k by {
            let last = s.len() - 1;
            if entries(s).contains_key(k) {
                if k == s[last]@.0 {
                    assert(s[last]@.0 == k);
                } else {
                    assert(entries(p).contains_key(k));
                    let i = choose|i: int| 0 <= i < p.len() && p[i]@.0 == k;
                    assert(p[i] == s[i]);
                    assert(s[i]@.0 == k);
                }
            }
            if exists|i: int| 0 <= i < s.len() && s[i]@.0 == k {
                let i = choose|i: int| 0 <= i < s.len() && s[i]@.0 == k;
                if i < last {
                    assert(p[i] == s[i]);
                    assert(p[i]@.0 == k);
                    assert(entries(p).contains_key(k));
                }
            }
        }
        assert forall|i: int| 0 <= i < s.len() implies entries(s)[#[trigger] s[i]@.0] == stats_of(
            s[i]@,
        ) by {
            if i < s.len() - 1 {
                assert(p[i] == s[i]);
                assert(s[i]@.0 != s[s.len() - 1]@.0);
            }
        }
    }
}

proof fn lemma_entries_update(s: Seq<TensorObserver>, j: int, x: TensorObserver)
    requires
        names_unique(s),
        0 <= j < s.len(),
        x@.0 == s[j]@.0,
    ensures
        names_unique(s.update(j, x)),
        entries(s.update(j, x)) == entries(s).insert(x@.0, stats_of(x@)),
    decreases s.len(),
{
    let t = s.update(j, x);
    assert(names_unique(t)) by {
        assert forall|a: int, b: int|
            0 <= a < t.len() && 0 <= b < t.len() && a != b implies #[trigger] t[a]@.0
            != #[trigger] t[b]@.0 by {
            assert(s[a]@.0 != s[b]@.0);
        }
    }
    let p = s.drop_last();
    if j == s.len() - 1 {
        assert(t.drop_last() =~= p);
        assert(entries(t) =~= entries(s).insert(x@.0, stats_of(x@)));
    } else {
        assert(names_unique(p)) by {
            assert forall|a: int, b: int|
                0 <= a < p.len() && 0 <= b < p.len() && a != b implies #[trigger] p[a]@.0
                != #[trigger] p[b]@.0 by {
                assert(p[a] == s[a] && p[b] == s[b]);
            }
        }
        lemma_entries_update(p, j, x);
        assert(t.drop_last() =~= p.update(j, x));
        assert(t.last() == s.last());
        assert(s[s.len() - 1]@.0 != s[j]@.0);
        assert(entries(t) =~= entries(s).insert(x@.0, stats_of(x@)));
    }
}

proof fn lemma_entries_push(s: Seq<TensorObserver>, x: TensorObserver)
    requires
        names_unique(s),
        forall|i: int| 0 <= i < s.len() ==> #[trigger] s[i]@.0 != x@.0,
    ensures
        names_unique(s.push(x)),
        entries(s.push(x)) == entries(s).insert(x@.0, stats_of(x@)),
{
    let t = s.push(x);
    assert(t.drop_last() =~= s);
    assert forall|a: int, b: int|
        0 <= a < t.len() && 0 <= b < t.len() && a != b implies #[trigger] t[a]@.0
        != #[trigger] t[b]@.0 by {
        if a < s.len() && b < s.len() {
            assert(t[a] == s[a] && t[b] == s[b]);
        } else if a < s.len() {
            assert(t[a] == s[a]);
        } else {
            assert(t[b] == s[b]);
        }
    }
}

/// Observers for several layers, looked up by layer name. No two observers
/// share a name.
pub struct ModelObserver {
    observers: Vec<TensorObserver>,
}

impl View for ModelObserver {
    /// layer name -> (running minimum, running maximum, number of batches)
    type V = Map<Seq<char>, (u32, u32, nat)>;

    closed spec fn view(&self) -> Map<Seq<char>, (u32, u32, nat)> {
        entries(self.observers@)
    }
}

impl ModelObserver {
    #[verifier::type_invariant]
    closed spec fn inv(self) -> bool {
        names_unique(self.observers@)
    }

    /// A model observer with no layers registered.
    pub fn new() -> (m: Self)
        ensures
            m@ == Map::<Seq<char>, (u32, u32, nat)>::empty(),
    {
        ModelObserver { observers: Vec::new() }
    }

    /// The position of the observer named `name`, if any.
    fn position(&self, name: &String) -> (r: Option<usize>)
        ensures
            match r {
                Some(j) => j < self.observers.len() && self.observers@[j as int]@.0 == name@,
                None => forall|i: int|
                    0 <= i < self.observers.len() ==> #[trigger] self.observers@[i]@.0 != name@,
            },
    {
        let mut i: usize = 0;
        while i < self.observers.len()
            invariant
                i <= self.observers.len(),
                forall|k: int| 0 <= k < i ==> #[trigger] self.observers@[k]@.0 != name@,
            decreases self.observers.len() - i,
        {
            if self.observers[i].name == *name {
                return Some(i);
            }
            i = i + 1;
        }
        None
    }

    /// Registers a fresh observer for `name`, replacing any observer that
    /// already has that name.
    pub fn register(&mut self, name: &str)
        ensures
            final(self)@ == old(self)@.insert(name@, (POS_INFINITY_BITS, NEG_INFINITY_BITS, 0nat)),
    {
        proof {
            use_type_invariant(&*self);
        }
        let key = name.to_owned();
        let fresh = TensorObserver::new(name);
        let found = self.position(&key);
        let mut all: Vec<TensorObserver> = Vec::new();
        std::mem::swap(&mut all, &mut self.observers);
        match found {
            Some(j) => {
                proof {
                    lemma_entries_update(all@, j as int, fresh);
                }
                all.set(j, fresh);
            },
            None => {
                proof {
                    lemma_entries_push(all@, fresh);
                }
                all.push(fresh);
            },
        }
        self.observers = all;
    }

    /// Folds a batch into the observer named `name`; does nothing if no
    /// observer has that name.
    pub fn observe(&mut self, name: &str, data: &Vec<u32>)
        requires
            old(self)@.contains_key(name@) ==> old(self)@[name@].2 < usize::MAX,
        ensures
            old(self)@.contains_key(name@) ==> final(self)@ == old(self)@.insert(
                name@,
                (
                    fold_min(old(self)@[name@].0, data@),
                    fold_max(old(self)@[name@].1, data@),
                    old(self)@[name@].2 + 1,
                ),
            ),
            !old(self)@.contains_key(name@) ==> final(self)@ == old(self)@,
    {
        proof {
            use_type_invariant(&*self);
            lemma_entries_lookup(self.observers@);
        }
        let key = name.to_owned();
        match self.position(&key) {
            Some(j) => {
                let mut updated = self.observers[j].clone_observer();
                updated.observe(data);
                proof {
                    lemma_entries_update(self.observers@, j as int, updated);
                }
                let mut all: Vec<TensorObserver> = Vec::new();
                std::mem::swap(&mut all, &mut self.observers);
                all.set(j, updated);
                self.observers = all;
            },
            None => {},
        }
    }

    /// The observer named `name`, if one is registered.
    pub fn get(&self, name: &str) -> (r: Option<&TensorObserver>)
        ensures
            match r {
                Some(o) => self@.contains_key(name@) && o@.0 == name@ && stats_of(o@)
                    == self@[name@],
                None => !self@.contains_key(name@),
            },
    {
        proof {
            use_type_invariant(self);
            lemma_entries_lookup(self.observers@);
        }
        let key = name.to_owned();
        match self.position(&key) {
            Some(j) => Some(&self.observers[j]),
            None => None,
        }
    }

    /// All registered observers, each name once.
    pub fn observers(&self) -> (r: &Vec<TensorObserver>)
        ensures
            names_unique(r@),
            forall|i: int|
                0 <= i < r.len() ==> self@.contains_key(#[trigger] r@[i]@.0) && self@[r@[i]@.0]
                    == stats_of(r@[i]@),
            forall|k: Seq<char>|
                #[trigger] self@.contains_key(k) ==> exists|i: int| 0 <= i < r.len() && r@[i]@.0 == k,
    {
        proof {
            use_type_invariant(self);
            lemma_entries_lookup(self.observers@);
        }
        &self.observers
    }
}

impl Default for ModelObserver {
    /// A model observer with no layers registered.
    fn default() -> (m: Self)
        ensures
            m@ == Map::<Seq<char>, (u32, u32, nat)>::empty(),
    {
        Self::new()
    }
}

impl TensorObserver {
    /// A copy of this observer.
    fn clone_observer(&self) -> (c: Self)
        ensures
            c@ == self@,
    {
        proof {
            use_type_invariant(self);
        }
        TensorObserver {
            name: self.name.clone(),
            min_val: self.min_val,
            max_val: self.max_val,
            num_samples: self.num_samples,
        }
    }
}

/// Law: observing a batch under one layer name, or registering one, leaves
/// the statistics of every other layer as they were.
pub proof fn lemma_other_layers_unchanged(
    m: Map<Seq<char>, (u32, u32, nat)>,
    name: Seq<char>,
    stats: (u32, u32, nat),
    other: Seq<char>,
)
    requires
        other != name,
    ensures
        m.insert(name, stats).contains_key(other) == m.contains_key(other),
        m.contains_key(other) ==> m.insert(name, stats)[other] == m[other],
{
}

} // verus!
