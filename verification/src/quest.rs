//! Quests and the order in which a list keeps them.

use vstd::prelude::*;

verus! {

/// One scheduled run of an event.
#[derive(Debug, Clone, PartialEq, Eq)]
pub struct Quest {
    /// When the event starts, in seconds since 1970-01-01 00:00:00 UTC.
    pub start_time: i64,
    /// The event's name, joined to the address of the article that announced it.
    pub name: String,
}

/// What a [`Quest`] holds, as mathematical values.
pub struct QuestModel {
    pub start_time: int,
    pub name: Seq<char>,
}

impl View for Quest {
    type V = QuestModel;

    open spec fn view(&self) -> QuestModel {
        QuestModel { start_time: self.start_time as int, name: self.name@ }
    }
}

/// The models of a list of quests, in the list's order.
pub open spec fn models(quests: Seq<Quest>) -> Seq<QuestModel> {
    quests.map_values(|q: Quest| q@)
}

/// Whether a list runs from the latest start to the earliest.
pub open spec fn descending(quests: Seq<QuestModel>) -> bool {
    forall|i: int, j: int|
        0 <= i < j < quests.len() ==> quests[i].start_time >= quests[j].start_time
}

/// Tells whether a list runs from the latest start to the earliest.
pub fn is_descending(quests: &Vec<Quest>) -> (r: bool)
    ensures
        r == descending(models(quests@)),
{
    let mut i: usize = 1;
    while i < quests.len()
        invariant
            1 <= i,
            forall|j: int|
                0 <= j && j + 1 < i && j + 1 < quests.len() ==> (#[trigger] models(
                    quests@,
                )[j]).start_time >= models(quests@)[j + 1].start_time,
        decreases quests.len() - i,
    {
        assert(models(quests@)[i - 1] == quests@[i - 1]@);
        assert(models(quests@)[i as int] == quests@[i as int]@);
        if quests[i - 1].start_time < quests[i].start_time {
            assert(models(quests@)[i - 1].start_time < models(quests@)[i as int].start_time);
            return false;
        }
        i += 1;
    }
    proof {
        lemma_descending_by_neighbours(models(quests@));
    }
    true
}

/// A list in which no quest starts before the one after it is descending.
pub proof fn lemma_descending_by_neighbours(quests: Seq<QuestModel>)
    requires
        forall|j: int|
            0 <= j && j + 1 < quests.len() ==> (#[trigger] quests[j]).start_time >= quests[j
                + 1].start_time,
    ensures
        descending(quests),
{
    assert forall|i: int, j: int| 0 <= i < j < quests.len() implies quests[i].start_time
        >= quests[j].start_time by {
        lemma_descending_span(quests, i, j);
    }
}

proof fn lemma_descending_span(quests: Seq<QuestModel>, i: int, j: int)
    requires
        forall|k: int|
            0 <= k && k + 1 < quests.len() ==> (#[trigger] quests[k]).start_time >= quests[k
                + 1].start_time,
        0 <= i <= j < quests.len(),
    ensures
        quests[i].start_time >= quests[j].start_time,
    decreases j - i,
{
    if i < j {
        lemma_descending_span(quests, i, j - 1);
        assert(quests[j - 1].start_time >= quests[j - 1 + 1].start_time);
    }
}

/// Orders a list from the latest start to the earliest.
pub fn sort_descending(quests: Vec<Quest>) -> (sorted: Vec<Quest>)
    ensures
        descending(models(sorted@)),
        models(sorted@).to_multiset() == models(quests@).to_multiset(),
        sorted@.len() == quests@.len(),
{
    let mut rest = quests;
    let mut sorted: Vec<Quest> = Vec::new();
    proof {
        assert(models(sorted@) =~= Seq::<QuestModel>::empty());
        assert(models(sorted@).to_multiset().add(models(rest@).to_multiset()) =~= models(
            quests@,
        ).to_multiset()) by {
            broadcast use vstd::seq_lib::group_to_multiset_ensures;

        }
    }
    while rest.len() > 0
        invariant
            descending(models(sorted@)),
            models(sorted@).to_multiset().add(models(rest@).to_multiset()) == models(
                quests@,
            ).to_multiset(),
            sorted@.len() + rest@.len() == quests@.len(),
        decreases rest.len(),
    {
        let ghost rest_before = rest@;
        let ghost sorted_before = sorted@;
        let quest = rest.pop().unwrap();
        let mut at: usize = 0;
        while at < sorted.len() && sorted[at].start_time > quest.start_time
            invariant
                at <= sorted.len(),
                forall|j: int| 0 <= j < at ==> sorted@[j].start_time > quest.start_time,
            decreases sorted.len() - at,
        {
            at += 1;
        }
        sorted.insert(at, quest);
        proof {
            let before = models(sorted_before);
            let after = models(sorted@);
            assert(after =~= before.insert(at as int, quest@));
            assert(models(rest_before) =~= models(rest@).push(quest@));
            vstd::seq_lib::to_multiset_insert(before, at as int, quest@);
            vstd::seq_lib::to_multiset_build(models(rest@), quest@);
            assert(after.to_multiset().add(models(rest@).to_multiset()) =~= before.to_multiset().add(
                models(rest_before).to_multiset(),
            ));
            assert forall|i: int, j: int| 0 <= i < j < after.len() implies after[i].start_time
                >= after[j].start_time by {
                if j < at {
                    assert(after[i] == before[i] && after[j] == before[j]);
                } else if j == at {
                    assert(after[i] == before[i]);
                    assert(sorted_before[i].start_time > quest.start_time);
                } else if i < at {
                    assert(after[i] == before[i] && after[j] == before[j - 1]);
                } else if i == at {
                    assert(after[j] == before[j - 1]);
                    assert(before[at as int].start_time >= before[j - 1].start_time);
                } else {
                    assert(after[i] == before[i - 1] && after[j] == before[j - 1]);
                }
            }
        }
    }
    proof {
        assert(models(rest@) =~= Seq::<QuestModel>::empty());
        assert(models(sorted@).to_multiset().add(models(rest@).to_multiset()) =~= models(
            sorted@,
        ).to_multiset()) by {
            broadcast use vstd::seq_lib::group_to_multiset_ensures;

        }
    }
    sorted
}

} // verus!
