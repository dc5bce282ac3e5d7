//! Deriving what died from what changed.
//!
//! A service does not write invalidation events. It edits `okibi.epochs.json`,
//! which is the same file its cache keys are built from, and the event is the
//! diff: so the event is a consequence of the commit rather than a second
//! description of it that can disagree with it.

use vstd::prelude::*;

use crate::invalidation::{Axis, InvalidationEvent, Scope, INVALIDATION_VERSION};
use crate::manifest::Epoch;
use crate::text::str_eq;
use crate::sorted_map::{keys_sorted, text_lt, TextMap};

verus! {

/// A service's `okibi.epochs.json`: the epochs of each of its tilesets, by
/// tileset.
#[derive(Debug)]
pub struct EpochsFile {
    pub service: String,
    pub tilesets: TextMap<Epoch>,
}

impl EpochsFile {
    /// The epochs a tileset's URLs are filled from.
    ///
    /// A tileset with none recorded has none: a service whose versions live
    /// in a cache key has nothing to put here.
    pub fn epoch_for(&self, tileset: &str) -> (res: Epoch)
        ensures
            self.tilesets@.contains_key(tileset@) ==> res == self.tilesets@[tileset@],
            !self.tilesets@.contains_key(tileset@) ==> res.source@.len() == 0
                && res.algo@.len() == 0 && res.param@.len() == 0,
    {
        match self.tilesets.get(&tileset.to_string()) {
            Some(epoch) => epoch.clone(),
            None => Epoch::default(),
        }
    }
}

/// Which axis to report when more than one moved: source, then algorithm,
/// then parameter.
pub open spec fn axis_moved(before: Epoch, after: Epoch) -> Option<Axis> {
    if before.source@ != after.source@ {
        Some(Axis::Source)
    } else if before.algo@ != after.algo@ {
        Some(Axis::Algo)
    } else if before.param@ != after.param@ {
        Some(Axis::Param)
    } else {
        None
    }
}

/// The part of an epoch an axis names.
pub open spec fn axis_value(epoch: Epoch, axis: Axis) -> Seq<char> {
    match axis {
        Axis::Source => epoch.source@,
        Axis::Algo => epoch.algo@,
        Axis::Param => epoch.param@,
    }
}

/// What an invalidation says moved: the tileset, the axis, and the value it
/// moved from and to.
pub type Moved = (Seq<char>, Axis, Seq<char>, Seq<char>);

/// What moved, in the order of the later file's tilesets: each tileset that
/// both files have and whose epochs differ.
pub open spec fn moves(keys: Seq<Seq<char>>, values: Seq<Epoch>, before: Map<Seq<char>, Epoch>) -> Seq<
    Moved,
>
    decreases keys.len(),
{
    if keys.len() == 0 || values.len() < keys.len() {
        Seq::empty()
    } else {
        let earlier = moves(keys.drop_last(), values.take(keys.len() - 1), before);
        let k = keys.last();
        let after = values[keys.len() - 1];
        if before.contains_key(k) && axis_moved(before[k], after) is Some {
            let axis = axis_moved(before[k], after)->Some_0;
            earlier.push((k, axis, axis_value(before[k], axis), axis_value(after, axis)))
        } else {
            earlier
        }
    }
}

/// What an event says moved.
pub open spec fn moved_by(event: InvalidationEvent) -> Moved {
    (event.tileset@, event.axis, event.epoch_from@, event.epoch_to@)
}

/// Whether `event` is one `between` raises for a change to `service`.
pub open spec fn raised_for(
    event: InvalidationEvent,
    service: Seq<char>,
    occurred_at: Seq<char>,
    deadline: Option<&str>,
) -> bool {
    &&& event.event@ == INVALIDATION_VERSION@
    &&& event.service@ == service
    &&& event.scope == Scope::All
    &&& event.occurred_at@ == occurred_at
    &&& match deadline {
        Some(d) => event.deadline matches Some(x) && x@ == d@,
        None => event.deadline is None,
    }
}

/// Which axis to report when more than one moved.
///
/// All of them invalidate the whole tileset, so the plan is the same either
/// way, and the axis is what a reader is told about the change: for which the
/// most fundamental cause is the useful one.
pub fn axis_that_moved(before: &Epoch, after: &Epoch) -> (res: Option<Axis>)
    ensures
        res == axis_moved(*before, *after),
        before.source@ != after.source@ ==> res == Some(Axis::Source),
        before.source@ == after.source@ && before.algo@ != after.algo@ ==> res == Some(Axis::Algo),
        before.source@ == after.source@ && before.algo@ == after.algo@ && before.param@
            != after.param@ ==> res == Some(Axis::Param),
        before.source@ == after.source@ && before.algo@ == after.algo@ && before.param@
            == after.param@ ==> res is None,
{
    if !str_eq(before.source.as_str(), after.source.as_str()) {
        Some(Axis::Source)
    } else if !str_eq(before.algo.as_str(), after.algo.as_str()) {
        Some(Axis::Algo)
    } else if !str_eq(before.param.as_str(), after.param.as_str()) {
        Some(Axis::Param)
    } else {
        None
    }
}

/// The axis reported is the first of source, algo and param that moved:
/// a moved algo is never reported as a param change, and a moved source is
/// reported whatever else moved with it. What is reported names an axis that
/// did move, with the value it moved from and to, and nothing is reported
/// when no axis moved.
pub proof fn law_the_first_axis_that_moved_is_reported(before: Epoch, after: Epoch)
    ensures
        before.source@ != after.source@ ==> axis_moved(before, after) == Some(Axis::Source),
        before.source@ == after.source@ && before.algo@ != after.algo@ ==> axis_moved(
            before,
            after,
        ) == Some(Axis::Algo),
        before.algo@ != after.algo@ ==> axis_moved(before, after) != Some(Axis::Param),
        axis_moved(before, after) is None <==> (before.source@ == after.source@ && before.algo@
            == after.algo@ && before.param@ == after.param@),
        axis_moved(before, after) matches Some(axis) ==> axis_value(before, axis) != axis_value(
            after,
            axis,
        ),
{
}

/// The part of an epoch an axis names.
pub fn value_of(epoch: &Epoch, axis: Axis) -> (res: &str)
    ensures
        res@ == axis_value(*epoch, axis),
{
    match axis {
        Axis::Source => epoch.source.as_str(),
        Axis::Algo => epoch.algo.as_str(),
        Axis::Param => epoch.param.as_str(),
    }
}

/// Every invalidation between two versions of an epochs file.
///
/// One event per tileset that moved, in the order tilesets sort in. A tileset
/// whose epochs are untouched did not die, and a tileset that only exists in
/// the new file is new rather than invalidated: nothing was cached under it to
/// lose. Cache keys are compiled into a service, so a change to them takes the
/// whole tileset with it.
pub fn between(
    before: &EpochsFile,
    after: &EpochsFile,
    occurred_at: &str,
    deadline: Option<&str>,
) -> (events: Vec<InvalidationEvent>)
    ensures
        events@.map_values(|e: InvalidationEvent| moved_by(e)) == moves(
            after.tilesets.keys(),
            after.tilesets.values(),
            before.tilesets@,
        ),
        forall|j: int|
            0 <= j < events@.len() ==> raised_for(
                #[trigger] events@[j],
                after.service@,
                occurred_at@,
                deadline,
            ),
        forall|i: int, j: int|
            0 <= i < j < events@.len() ==> text_lt(
                #[trigger] events@[i].tileset@,
                #[trigger] events@[j].tileset@,
            ),
        forall|j: int|
            0 <= j < events@.len() ==> (#[trigger] events@[j]).epoch_from@ != events@[j].epoch_to@,
{
    let mut events: Vec<InvalidationEvent> = Vec::new();
    let n = after.tilesets.len();
    let ghost keys = after.tilesets.keys();
    let ghost values = after.tilesets.values();
    let mut i: usize = 0;
    proof {
        assert(keys.take(0) =~= Seq::<Seq<char>>::empty());
        assert(events@.map_values(|e: InvalidationEvent| moved_by(e)) =~= Seq::<Moved>::empty());
    }
    while i < n
        invariant
            i <= n,
            n == keys.len(),
            n == values.len(),
            keys == after.tilesets.keys(),
            values == after.tilesets.values(),
            keys_sorted::<String>(keys),
            events@.map_values(|e: InvalidationEvent| moved_by(e)) == moves(
                keys.take(i as int),
                values.take(i as int),
                before.tilesets@,
            ),
            forall|j: int|
                0 <= j < events@.len() ==> raised_for(
                    #[trigger] events@[j],
                    after.service@,
                    occurred_at@,
                    deadline,
                ),
        decreases n - i,
    {
        let ghost prefix = keys.take(i as int);
        proof {
            assert(keys.take(i + 1).drop_last() =~= prefix);
            assert(values.take(i + 1).take(i as int) =~= values.take(i as int));
            assert(keys.take(i + 1).last() == keys[i as int]);
        }
        let tileset = after.tilesets.key_at(i);
        let new = after.tilesets.value_at(i);
        if let Some(old) = before.tilesets.get(tileset) {
            if let Some(axis) = axis_that_moved(old, new) {
                let event = InvalidationEvent {
                    event: INVALIDATION_VERSION.to_string(),
                    service: after.service.clone(),
                    tileset: tileset.clone(),
                    axis,
                    epoch_from: value_of(old, axis).to_string(),
                    epoch_to: value_of(new, axis).to_string(),
                    scope: Scope::All,
                    occurred_at: occurred_at.to_string(),
                    deadline: match deadline {
                        Some(d) => Some(d.to_string()),
                        None => None,
                    },
                };
                let ghost before_push = events@;
                events.push(event);
                proof {
                    assert(events@.map_values(|e: InvalidationEvent| moved_by(e)) =~= before_push.map_values(
                        |e: InvalidationEvent| moved_by(e),
                    ).push(moved_by(event)));
                }
            }
        }
        i = i + 1;
    }
    proof {
        assert(keys.take(n as int) =~= keys);
        assert(values.take(n as int) =~= values);
        lemma_moves_sorted(keys, values, before.tilesets@);
        lemma_moves_differ(keys, values, before.tilesets@);
        let s = events@.map_values(|e: InvalidationEvent| moved_by(e));
        assert forall|j: int| 0 <= j < events@.len() implies (#[trigger] events@[j]).epoch_from@
            != events@[j].epoch_to@ by {
            assert(s[j] == moved_by(events@[j]));
        }
        assert forall|a: int, b: int| 0 <= a < b < events@.len() implies text_lt(
            #[trigger] events@[a].tileset@,
            #[trigger] events@[b].tileset@,
        ) by {
            assert(s[a].0 == events@[a].tileset@);
            assert(s[b].0 == events@[b].tileset@);
        }
    }
    events
}

/// What moved always moved: the value it moved from is not the one it moved
/// to.
proof fn lemma_moves_differ(keys: Seq<Seq<char>>, values: Seq<Epoch>, before: Map<Seq<char>, Epoch>)
    ensures
        forall|j: int|
            0 <= j < moves(keys, values, before).len() ==> (#[trigger] moves(
                keys,
                values,
                before,
            )[j]).2 != moves(keys, values, before)[j].3,
    decreases keys.len(),
{
    if keys.len() > 0 && values.len() >= keys.len() {
        let shorter = keys.drop_last();
        let vs = values.take(keys.len() - 1);
        lemma_moves_differ(shorter, vs, before);
        let all = moves(keys, values, before);
        let earlier = moves(shorter, vs, before);
        assert forall|j: int| 0 <= j < all.len() implies (#[trigger] all[j]).2 != all[j].3 by {
            if j < earlier.len() {
                assert(all[j] == earlier[j]);
            }
        }
    }
}

/// Every tileset in what moved sorts before anything every key sorts before.
proof fn lemma_moves_below(
    keys: Seq<Seq<char>>,
    values: Seq<Epoch>,
    before: Map<Seq<char>, Epoch>,
    bound: Seq<char>,
)
    requires
        forall|i: int| 0 <= i < keys.len() ==> text_lt(#[trigger] keys[i], bound),
    ensures
        forall|j: int|
            0 <= j < moves(keys, values, before).len() ==> text_lt(
                #[trigger] moves(keys, values, before)[j].0,
                bound,
            ),
    decreases keys.len(),
{
    if keys.len() > 0 && values.len() >= keys.len() {
        let shorter = keys.drop_last();
        assert forall|i: int| 0 <= i < shorter.len() implies text_lt(#[trigger] shorter[i], bound) by {
            assert(shorter[i] == keys[i]);
        }
        lemma_moves_below(shorter, values.take(keys.len() - 1), before, bound);
        assert(text_lt(keys[keys.len() - 1], bound));
        let all = moves(keys, values, before);
        let earlier = moves(shorter, values.take(keys.len() - 1), before);
        assert forall|j: int| 0 <= j < all.len() implies text_lt(#[trigger] all[j].0, bound) by {
            if j < earlier.len() {
                assert(all[j] == earlier[j]);
            } else {
                assert(all[j].0 == keys.last());
            }
        }
    }
}

/// Of keys in order, what moved is in order too.
proof fn lemma_moves_sorted(keys: Seq<Seq<char>>, values: Seq<Epoch>, before: Map<Seq<char>, Epoch>)
    requires
        keys_sorted::<String>(keys),
    ensures
        forall|a: int, b: int|
            0 <= a < b < moves(keys, values, before).len() ==> text_lt(
                #[trigger] moves(keys, values, before)[a].0,
                #[trigger] moves(keys, values, before)[b].0,
            ),
    decreases keys.len(),
{
    if keys.len() > 0 && values.len() >= keys.len() {
        let shorter = keys.drop_last();
        let last = keys.last();
        assert forall|a: int, b: int| 0 <= a < b < shorter.len() implies text_lt(
            #[trigger] shorter[a],
            #[trigger] shorter[b],
        ) by {
            assert(shorter[a] == keys[a] && shorter[b] == keys[b]);
        }
        lemma_moves_sorted(shorter, values.take(keys.len() - 1), before);
        assert forall|i: int| 0 <= i < shorter.len() implies text_lt(#[trigger] shorter[i], last) by {
            assert(shorter[i] == keys[i]);
        }
        lemma_moves_below(shorter, values.take(keys.len() - 1), before, last);
        let all = moves(keys, values, before);
        let earlier = moves(shorter, values.take(keys.len() - 1), before);
        assert forall|a: int, b: int| 0 <= a < b < all.len() implies text_lt(
            #[trigger] all[a].0,
            #[trigger] all[b].0,
        ) by {
            assert(all[a] == earlier[a]);
            if b < earlier.len() {
                assert(all[b] == earlier[b]);
            } else {
                assert(all[b].0 == last);
                assert(text_lt(earlier[a].0, last));
            }
        }
    }
}

/// A file compared with itself raises nothing: only a change is an
/// invalidation.
pub proof fn law_an_unchanged_file_raises_nothing(file: EpochsFile)
    requires
        keys_sorted::<String>(file.tilesets.keys()),
    ensures
        moves(file.tilesets.keys(), file.tilesets.values(), file.tilesets@).len() == 0,
{
    let m = file.tilesets;
    m.lemma_lengths();
    lemma_unchanged(m.keys(), m.values(), m, m.keys().len() as int);
    assert(m.keys().take(m.keys().len() as int) =~= m.keys());
    assert(m.values().take(m.keys().len() as int) =~= m.values());
}

proof fn lemma_unchanged(
    keys: Seq<Seq<char>>,
    values: Seq<Epoch>,
    m: TextMap<Epoch>,
    n: int,
)
    requires
        keys == m.keys(),
        values == m.values(),
        keys_sorted::<String>(keys),
        0 <= n <= keys.len(),
    ensures
        moves(keys.take(n), values.take(n), m@).len() == 0,
    decreases n,
{
    m.lemma_lengths();
    if n > 0 {
        m.lemma_entry(n - 1);
        lemma_unchanged(keys, values, m, n - 1);
        assert(keys.take(n).drop_last() =~= keys.take(n - 1));
        assert(values.take(n).take(n - 1) =~= values.take(n - 1));
        assert(keys.take(n).last() == keys[n - 1]);
        assert(values.take(n)[n - 1] == values[n - 1]);
    }
}

} // verus!
