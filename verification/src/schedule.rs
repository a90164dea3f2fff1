//! Reminders: the store of pending quests, and what is due at a given instant.

use crate::quest::{descending, is_descending, models, sort_descending, Quest, QuestModel};
use crate::text::{decimal, decimal_text};
use vstd::prelude::*;

verus! {

/// How many minutes before a quest starts its reminder is sent.
pub const REMINDER_MINS: i64 = 15;

/// The seconds between two readings of the calendar: nine hours and thirty-six
/// minutes, which is `60 * 24 * 24` and not the `60 * 60 * 24` of a day.
pub const SCRAPE_INTERVAL_SECS: u64 = 60 * 24 * 24;

/// The seconds between two looks at the store.
pub const CHECK_INTERVAL_SECS: u64 = 60;

/// The name of the channel that reminders are sent to.
pub const BOT_CHANNEL: &'static str = "pso2_bot";

/// The number of guilds that one request lists.
pub const GUILD_PAGE: u64 = 100;

/// The number of guilds from which on the list is close to what one request holds.
pub const GUILD_WARNING: usize = 90;

/// Where a quest's start stands against the clock.
#[derive(Debug, Clone, Copy, PartialEq, Eq, Structural)]
pub enum Timing {
    /// The quest has started.
    Past,
    /// The quest starts within the reminder window.
    FutureNear,
    /// The quest starts after the reminder window.
    FutureFar,
}

/// Where a quest that starts at `start` stands at the instant `now`, both in seconds,
/// with a reminder window of `window_mins` minutes.
pub open spec fn timing(start: int, now: int, window_mins: int) -> Timing {
    if now - start >= 0 {
        Timing::Past
    } else if start - now < window_mins * 60 {
        Timing::FutureNear
    } else {
        Timing::FutureFar
    }
}

/// Tells where a quest's start stands against the clock.
pub fn classify(start_time: i64, now: i64, window_mins: i64) -> (r: Timing)
    ensures
        r == timing(start_time as int, now as int, window_mins as int),
{
    let left: i128 = start_time as i128 - now as i128;
    let window: i128 = window_mins as i128 * 60;
    if left <= 0 {
        Timing::Past
    } else if left < window {
        Timing::FutureNear
    } else {
        Timing::FutureFar
    }
}

/// A quest that starts no earlier than one whose reminder is far off is far off too.
pub proof fn lemma_timing_far_is_monotonic(earlier: int, later: int, now: int, window_mins: int)
    requires
        earlier <= later,
        timing(earlier, now, window_mins) == Timing::FutureFar,
    ensures
        timing(later, now, window_mins) == Timing::FutureFar,
{
}

/// The whole minutes from `now` to `start`, rounded towards zero.
pub open spec fn minutes_until(start: int, now: int) -> int {
    if start >= now {
        (start - now) / 60
    } else {
        -((now - start) / 60)
    }
}

/// The text of `IN `.
pub open spec fn message_head() -> Seq<char> {
    seq!['I', 'N', ' ']
}

/// The text of ` MINUTES: `.
pub open spec fn message_middle() -> Seq<char> {
    seq![' ', 'M', 'I', 'N', 'U', 'T', 'E', 'S', ':', ' ']
}

/// The reminder for `quest` at the instant `now`.
pub open spec fn reminder_text(quest: QuestModel, now: int) -> Seq<char> {
    message_head() + decimal(minutes_until(quest.start_time, now)) + message_middle()
        + quest.name
}

/// Writes the reminder for `quest` at the instant `now`.
pub fn reminder_message(quest: &Quest, now: i64) -> (r: String)
    ensures
        r@ == reminder_text(quest@, now as int),
{
    let left: i128 = quest.start_time as i128 - now as i128;
    let minutes: i64 = if left >= 0 {
        (left / 60) as i64
    } else {
        (-((-left) / 60)) as i64
    };
    proof {
        reveal_strlit("IN ");
        reveal_strlit(" MINUTES: ");
    }
    let mut message = "IN ".to_owned();
    message.append(decimal_text(minutes).as_str());
    message.append(" MINUTES: ");
    message.append(quest.name.as_str());
    assert("IN "@ =~= message_head());
    assert(" MINUTES: "@ =~= message_middle());
    assert(message@ =~= reminder_text(quest@, now as int));
    message
}

/// The place of the first name in `names` that is `wanted`.
pub fn find_channel(names: &Vec<String>, wanted: &str) -> (r: Option<usize>)
    ensures
        match r {
            Some(at) => at < names.len() && names[at as int]@ == wanted@ && forall|j: int|
                0 <= j < at ==> names[j]@ != wanted@,
            None => forall|j: int| 0 <= j < names.len() ==> names[j]@ != wanted@,
        },
{
    let target = wanted.to_owned();
    let mut i: usize = 0;
    while i < names.len()
        invariant
            i <= names.len(),
            target@ == wanted@,
            forall|j: int| 0 <= j < i ==> names[j]@ != wanted@,
        decreases names.len() - i,
    {
        if names[i] == target {
            return Some(i);
        }
        i += 1;
    }
    None
}

/// Tells whether a list of `count` guilds is close to what one request holds, so that
/// guilds beyond it may be missing.
pub fn near_guild_limit(count: usize) -> (r: bool)
    ensures
        r == (count >= GUILD_WARNING),
{
    count >= GUILD_WARNING
}

/// The number of quests at the front of `quests` that a pass at the instant `now`
/// leaves: the pass takes quests from the end for as long as the last one is not
/// far off.
pub open spec fn kept(quests: Seq<QuestModel>, now: int, window_mins: int) -> int
    decreases quests.len(),
{
    if quests.len() == 0 {
        0
    } else if timing(quests.last().start_time, now, window_mins) == Timing::FutureFar {
        quests.len() as int
    } else {
        kept(quests.drop_last(), now, window_mins)
    }
}

/// The quests that a pass at the instant `now` sends a reminder for, in the order in
/// which it takes them: those among the ones it takes that have not started.
pub open spec fn due(quests: Seq<QuestModel>, now: int, window_mins: int) -> Seq<QuestModel>
    decreases quests.len(),
{
    if quests.len() == 0 {
        Seq::empty()
    } else {
        match timing(quests.last().start_time, now, window_mins) {
            Timing::FutureFar => Seq::empty(),
            Timing::FutureNear => seq![quests.last()] + due(
                quests.drop_last(),
                now,
                window_mins,
            ),
            Timing::Past => due(quests.drop_last(), now, window_mins),
        }
    }
}

/// What one look at the store's last quest did.
#[derive(Debug, Clone, PartialEq, Eq)]
pub enum Step {
    /// The quest had started: it was taken out, and no reminder is sent.
    Discard(Quest),
    /// The quest starts within the reminder window: it was taken out, and its
    /// reminder is to be sent.
    Notify(Quest),
    /// The store is empty, or its last quest is far off: nothing was taken out, and
    /// nothing else in the store is due.
    Wait,
}

/// The pending quests, from the latest start to the earliest.
pub struct EventStore {
    quests: Vec<Quest>,
}

impl View for EventStore {
    type V = Seq<QuestModel>;

    closed spec fn view(&self) -> Seq<QuestModel> {
        models(self.quests@)
    }
}

impl EventStore {
    /// Whether the store is in order: its quests run from the latest start to the
    /// earliest. Every store is, that was made and changed by the functions below.
    pub open spec fn wf(&self) -> bool {
        descending(self@)
    }

    /// The store without quests.
    pub fn new() -> (r: EventStore)
        ensures
            r@ == Seq::<QuestModel>::empty(),
            r.wf(),
    {
        let quests: Vec<Quest> = Vec::new();
        assert(models(quests@) =~= Seq::<QuestModel>::empty());
        EventStore { quests }
    }

    /// The number of pending quests.
    pub fn len(&self) -> (r: usize)
        ensures
            r == self@.len(),
    {
        self.quests.len()
    }

    /// The pending quests.
    pub fn pending(&self) -> (r: &Vec<Quest>)
        ensures
            models(r@) == self@,
    {
        &self.quests
    }

    /// Puts `list` in place of what the store held. A list that runs from the latest
    /// start to the earliest is kept as it is; any other is brought into that order
    /// first.
    pub fn replace(&mut self, list: Vec<Quest>)
        ensures
            final(self).wf(),
            final(self)@.to_multiset() == models(list@).to_multiset(),
            descending(models(list@)) ==> final(self)@ == models(list@),
    {
        if is_descending(&list) {
            self.quests = list;
        } else {
            self.quests = sort_descending(list);
        }
    }

    /// Looks at the last quest, the one that starts first, at the instant `now`.
    pub fn step(&mut self, now: i64, window_mins: i64) -> (r: Step)
        ensures
            old(self).wf() ==> final(self).wf(),
            match r {
                Step::Discard(quest) => {
                    &&& old(self)@.len() > 0
                    &&& timing(old(self)@.last().start_time, now as int, window_mins as int)
                        == Timing::Past
                    &&& quest@ == old(self)@.last()
                    &&& final(self)@ == old(self)@.drop_last()
                },
                Step::Notify(quest) => {
                    &&& old(self)@.len() > 0
                    &&& timing(old(self)@.last().start_time, now as int, window_mins as int)
                        == Timing::FutureNear
                    &&& quest@ == old(self)@.last()
                    &&& final(self)@ == old(self)@.drop_last()
                },
                Step::Wait => {
                    &&& final(self)@ == old(self)@
                    &&& old(self)@.len() > 0 ==> timing(
                        old(self)@.last().start_time,
                        now as int,
                        window_mins as int,
                    ) == Timing::FutureFar
                },
            },
    {
        let n = self.quests.len();
        if n == 0 {
            return Step::Wait;
        }
        assert(models(self.quests@).last() == self.quests@[n - 1]@);
        match classify(self.quests[n - 1].start_time, now, window_mins) {
            Timing::FutureFar => Step::Wait,
            Timing::FutureNear => {
                let ghost before = self.quests@;
                let quest = self.quests.pop().unwrap();
                assert(models(self.quests@) =~= models(before).drop_last());
                Step::Notify(quest)
            },
            Timing::Past => {
                let ghost before = self.quests@;
                let quest = self.quests.pop().unwrap();
                assert(models(self.quests@) =~= models(before).drop_last());
                Step::Discard(quest)
            },
        }
    }

    /// Makes one pass at the instant `now`: takes out, from the end, every quest that
    /// has started or starts within the reminder window, stops at the first that is
    /// far off, and gives those whose reminder is to be sent, in the order in which
    /// they were taken.
    pub fn take_due(&mut self, now: i64, window_mins: i64) -> (reminders: Vec<Quest>)
        ensures
            final(self)@ == old(self)@.take(kept(old(self)@, now as int, window_mins as int)),
            models(reminders@) == due(old(self)@, now as int, window_mins as int),
            old(self).wf() ==> final(self).wf() && forall|i: int|
                0 <= i < final(self)@.len() ==> timing(
                    (#[trigger] final(self)@[i]).start_time,
                    now as int,
                    window_mins as int,
                ) == Timing::FutureFar,
    {
        let mut reminders: Vec<Quest> = Vec::new();
        let ghost all = self@;
        proof {
            assert(models(reminders@) =~= Seq::<QuestModel>::empty());
            assert(all.take(all.len() as int) =~= all);
        }
        loop
            invariant
                descending(all) ==> self.wf(),
                all == old(self)@,
                self@ == all.take(self@.len() as int),
                self@.len() <= all.len(),
                kept(all, now as int, window_mins as int) == kept(
                    self@,
                    now as int,
                    window_mins as int,
                ),
                due(all, now as int, window_mins as int) == models(reminders@) + due(
                    self@,
                    now as int,
                    window_mins as int,
                ),
            ensures
                self@ == all.take(kept(all, now as int, window_mins as int)),
                models(reminders@) == due(all, now as int, window_mins as int),
                descending(all) ==> self.wf() && forall|i: int|
                    0 <= i < self@.len() ==> timing(
                        (#[trigger] self@[i]).start_time,
                        now as int,
                        window_mins as int,
                    ) == Timing::FutureFar,
            decreases self@.len(),
        {
            let ghost before = self@;
            let ghost sent = models(reminders@);
            match self.step(now, window_mins) {
                Step::Wait => {
                    proof {
                        assert(self@ == before);
                        assert(sent + Seq::<QuestModel>::empty() =~= sent);
                        if before.len() > 0 && descending(all) {
                            assert forall|i: int| 0 <= i < before.len() implies timing(
                                (#[trigger] before[i]).start_time,
                                now as int,
                                window_mins as int,
                            ) == Timing::FutureFar by {
                                lemma_timing_far_is_monotonic(
                                    before.last().start_time,
                                    before[i].start_time,
                                    now as int,
                                    window_mins as int,
                                );
                            }
                        }
                    }
                    break ;
                },
                Step::Notify(quest) => {
                    reminders.push(quest);
                    proof {
                        assert(models(reminders@) =~= sent.push(quest@));
                        assert(sent + (seq![before.last()] + due(
                            before.drop_last(),
                            now as int,
                            window_mins as int,
                        )) =~= sent.push(quest@) + due(self@, now as int, window_mins as int));
                        assert(self@ =~= all.take(self@.len() as int));
                    }
                },
                Step::Discard(quest) => {
                    proof {
                        assert(self@ =~= all.take(self@.len() as int));
                    }
                },
            }
        }
        reminders
    }
}

} // verus!
