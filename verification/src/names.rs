//! The distinct names of the metrics, each kept as the JSON text of the
//! value under the metric's name key.

use crate::aggregate::name_key;
use crate::extract::object_models;
use crate::json::{json_text, object_get, object_model, value_text, Json, SerdeObject};
use crate::text::views;
use vstd::hash_set::StringHashSet;
use vstd::prelude::*;

verus! {

/// The name of each metric as JSON text, in metric order.
pub open spec fn name_texts(metrics: Seq<Map<Seq<char>, Json>>) -> Seq<Seq<char>> {
    metrics.map_values(|metric: Map<Seq<char>, Json>| json_text(metric[name_key()]))
}

/// The texts without repetition, each at the place where it first occurs.
pub open spec fn distinct(texts: Seq<Seq<char>>) -> Seq<Seq<char>>
    decreases texts.len(),
{
    if texts.len() == 0 {
        Seq::empty()
    } else {
        let before = distinct(texts.drop_last());
        if before.contains(texts.last()) {
            before
        } else {
            before.push(texts.last())
        }
    }
}

/// `distinct` holds each text once, and holds exactly the texts it was given.
pub proof fn lemma_distinct(texts: Seq<Seq<char>>)
    ensures
        distinct(texts).no_duplicates(),
        forall|t: Seq<char>| distinct(texts).contains(t) <==> texts.contains(t),
        distinct(texts).to_set() == texts.to_set(),
    decreases texts.len(),
{
    if texts.len() > 0 {
        let init = texts.drop_last();
        let last = texts.last();
        let before = distinct(init);
        lemma_distinct(init);
        assert(texts =~= init.push(last));
        assert forall|t: Seq<char>| distinct(texts).contains(t) <==> texts.contains(t) by {
            vstd::seq_lib::lemma_seq_contains_after_push(init, last, t);
            vstd::seq_lib::lemma_seq_contains_after_push(before, last, t);
            assert(before.contains(t) <==> init.contains(t));
        }
        if !before.contains(last) {
            assert forall|i: int, j: int|
                0 <= i < before.len() + 1 && 0 <= j < before.len() + 1 && i != j implies before.push(
                last,
            )[i] != before.push(last)[j] by {
                if i < before.len() && j < before.len() {
                } else if i < before.len() {
                    assert(before[i] != last);
                } else {
                    assert(before[j] != last);
                }
            }
        }
    }
    assert(distinct(texts).to_set() =~= texts.to_set());
}

/// A set of names that remembers the order in which they came.
pub struct UniqueNames {
    seen: StringHashSet,
    names: Vec<String>,
}

impl View for UniqueNames {
    type V = Set<Seq<char>>;

    closed spec fn view(&self) -> Set<Seq<char>> {
        self.seen@
    }
}

impl UniqueNames {
    /// The order holds each name of the set once, and nothing else.
    pub closed spec fn wf(self) -> bool {
        &&& views(self.names@).no_duplicates()
        &&& self.seen@ == views(self.names@).to_set()
    }

    /// The names in the order in which each came first.
    pub closed spec fn order(self) -> Seq<Seq<char>> {
        views(self.names@)
    }

    /// What `wf` says, for callers.
    pub proof fn lemma_order(self)
        requires
            self.wf(),
        ensures
            self.order().no_duplicates(),
            self.order().to_set() == self@,
            self@.finite(),
            self@.len() == self.order().len(),
    {
        self.order().unique_seq_to_set();
        vstd::seq_lib::seq_to_set_is_finite(self.order());
    }

    pub fn new() -> (res: Self)
        ensures
            res.wf(),
            res@ == Set::<Seq<char>>::empty(),
            res.order() == Seq::<Seq<char>>::empty(),
    {
        let res = UniqueNames { seen: StringHashSet::new(), names: Vec::new() };
        proof {
            assert(views(res.names@) =~= Seq::<Seq<char>>::empty());
            assert(views(res.names@).to_set() =~= Set::<Seq<char>>::empty());
        }
        res
    }

    /// Adds a name; tells whether it was new.
    pub fn insert(&mut self, name: String) -> (fresh: bool)
        ensures
            old(self).wf() ==> final(self).wf(),
            fresh == !old(self)@.contains(name@),
            final(self)@ == old(self)@.insert(name@),
            final(self).order() == if fresh {
                old(self).order().push(name@)
            } else {
                old(self).order()
            },
    {
        let ghost before = views(self.names@);
        let ghost text = name@;
        let fresh = self.seen.insert(name.clone());
        if fresh {
            self.names.push(name);
            proof {
                assert(views(self.names@) =~= before.push(text));
                before.lemma_push_to_set_commute(text);
                assert(old(self).wf() ==> !before.contains(text));
                assert forall|i: int, j: int|
                    old(self).wf() && 0 <= i < before.len() + 1 && 0 <= j < before.len() + 1 && i
                        != j implies before.push(text)[i] != before.push(text)[j] by {
                    if i < before.len() && j < before.len() {
                    } else if i < before.len() {
                        assert(before[i] != text);
                    } else {
                        assert(before[j] != text);
                    }
                }
            }
        } else {
            proof {
                if old(self).wf() {
                    assert(before.to_set().insert(text) =~= before.to_set());
                }
            }
        }
        fresh
    }

    pub fn contains(&self, name: &str) -> (res: bool)
        ensures
            res == self@.contains(name@),
    {
        self.seen.contains(name)
    }

    /// The number of distinct names.
    pub fn len(&self) -> (res: usize)
        ensures
            res == self.order().len(),
            self.wf() ==> res == self@.len(),
    {
        proof {
            if self.wf() {
                self.lemma_order();
            }
        }
        self.names.len()
    }

    /// The names in the order in which each came first.
    pub fn names(&self) -> (res: &Vec<String>)
        ensures
            views(res@) == self.order(),
    {
        &self.names
    }
}

/// The metric, by its index, that has no name.
pub struct UnnamedMetric {
    pub metric: usize,
}

/// Collects the distinct names of the metrics, each as JSON text.
///
/// Succeeds exactly when every metric has a name. Otherwise the error names
/// the first that has none.
pub fn get_unique_metrics(metrics: &Vec<SerdeObject>) -> (res: Result<UniqueNames, UnnamedMetric>)
    ensures
        match res {
            Ok(unique) => {
                &&& unique.wf()
                &&& forall|i: int|
                    0 <= i < metrics@.len() ==> (#[trigger] object_models(metrics@)[i]).contains_key(
                        name_key(),
                    )
                &&& unique@ == name_texts(object_models(metrics@)).to_set()
                &&& unique.order() == distinct(name_texts(object_models(metrics@)))
            },
            Err(error) => {
                &&& 0 <= error.metric < metrics@.len()
                &&& !object_models(metrics@)[error.metric as int].contains_key(name_key())
                &&& forall|i: int|
                    0 <= i < error.metric ==> (#[trigger] object_models(metrics@)[i]).contains_key(
                        name_key(),
                    )
            },
        },
{
    let mut unique = UniqueNames::new();
    let ghost models = object_models(metrics@);
    let ghost texts = name_texts(models);
    let mut i: usize = 0;
    proof {
        assert(texts.take(0) =~= Seq::<Seq<char>>::empty());
        assert(texts.take(0).to_set() =~= Set::<Seq<char>>::empty());
    }
    while i < metrics.len()
        invariant
            i <= metrics.len(),
            models == object_models(metrics@),
            texts == name_texts(models),
            forall|j: int| 0 <= j < i ==> (#[trigger] models[j]).contains_key(name_key()),
            unique.wf(),
            unique.order() == distinct(texts.take(i as int)),
            unique@ == texts.take(i as int).to_set(),
        decreases metrics.len() - i,
    {
        proof {
            assert(models[i as int] == object_model(metrics@[i as int]));
            assert(texts.take(i + 1).drop_last() =~= texts.take(i as int));
            assert(texts.take(i + 1).last() == texts[i as int]);
            lemma_distinct(texts.take(i as int));
            assert(texts.take(i + 1) =~= texts.take(i as int).push(texts[i as int]));
            assert(texts.take(i + 1).to_set() =~= texts.take(i as int).to_set().insert(
                texts[i as int],
            ));
        }
        match object_get(&metrics[i], "name") {
            None => {
                return Err(UnnamedMetric { metric: i });
            },
            Some(name) => {
                unique.insert(value_text(name));
            },
        }
        i = i + 1;
    }
    proof {
        assert(texts.take(i as int) =~= texts);
    }
    Ok(unique)
}

} // verus!
