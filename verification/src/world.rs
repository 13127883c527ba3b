//! Makers of one entry in one world.
//!
//! Any number of runs may be after the same entry at once, in one process or
//! in many. This is what they share: whether the entry stands at its final
//! place, and who holds the lock. The world answers each maker according to
//! what the maker waits for. Whatever the order of their turns and whatever
//! fails, the entry is renamed into place at most once.

use crate::action::ActionView;
use crate::action::EventView;
use crate::error::ErrorView;
use crate::layout::EntryView;
use crate::making::fresh;
use crate::making::in_order;
use crate::making::lemma_step_in_order;
use crate::making::MakingView;
use crate::making::Phase;
use crate::making::RemoteTreeView;
use crate::making::step;
use vstd::prelude::*;

verus! {

/// What the world has to say to an action that may go one way or another.
pub struct Answer {
    /// Whether the action is carried out.
    pub ok: bool,
    /// The failure, where it is not.
    pub error: ErrorView,
    /// The text that is fetched, where one is asked for.
    pub text: Seq<char>,
}

/// The makers of one entry and what they share.
pub struct World {
    /// Whether the entry stands at its final place.
    pub exists: bool,
    /// The maker that holds the lock.
    pub holder: Option<int>,
    /// How often the entry was renamed into its final place.
    pub published: nat,
    /// The makers.
    pub makers: Seq<MakingView>,
}

/// `count` makers of the same entry, each before its first event, in a world
/// where nobody holds the lock.
pub open spec fn start(
    count: nat,
    exists: bool,
    entry: EntryView,
    remote: Option<RemoteTreeView>,
    script: Seq<ActionView>,
) -> World {
    World {
        exists,
        holder: None,
        published: 0,
        makers: Seq::new(count, |i: int| fresh(entry, remote, script)),
    }
}

/// An action that is carried out or fails.
pub open spec fn done_or_failed(answer: Answer) -> EventView {
    if answer.ok {
        EventView::Done
    } else {
        EventView::Failed(answer.error)
    }
}

/// What the world tells a maker on its turn. A maker that waits for the lock
/// while another holds it is told nothing, and so is one that is finished.
pub open spec fn event_for(w: World, who: int, answer: Answer) -> Option<EventView> {
    match w.makers[who].phase {
        Phase::Finished => None,
        Phase::FastCheck | Phase::Recheck => Some(EventView::Exists(w.exists)),
        Phase::Locking => if w.holder is Some {
            None
        } else {
            Some(done_or_failed(answer))
        },
        Phase::Listing => Some(
            if answer.ok {
                EventView::Text(answer.text)
            } else {
                EventView::Failed(answer.error)
            },
        ),
        _ => Some(done_or_failed(answer)),
    }
}

/// The world after the turn of one maker. A renaming that is carried out
/// puts the entry in its final place; a maker that got the lock holds it
/// until its run is over.
pub open spec fn turn(w: World, who: int, answer: Answer) -> World {
    if who < 0 || who >= w.makers.len() {
        w
    } else {
        match event_for(w, who, answer) {
            None => w,
            Some(event) => {
                let before = w.makers[who];
                let after = step(before, event).0;
                let renamed = before.phase == Phase::Publishing && event is Done;
                World {
                    exists: w.exists || renamed,
                    holder: if after.locked {
                        Some(who)
                    } else if w.holder == Some(who) {
                        None
                    } else {
                        w.holder
                    },
                    published: if renamed {
                        w.published + 1
                    } else {
                        w.published
                    },
                    makers: w.makers.update(who, after),
                }
            },
        }
    }
}

/// The world after a run of turns.
pub open spec fn after_turns(w: World, turns: Seq<(int, Answer)>) -> World
    decreases turns.len(),
{
    if turns.len() == 0 {
        w
    } else {
        turn(after_turns(w, turns.drop_last()), turns.last().0, turns.last().1)
    }
}

/// Whether a maker in this phase is putting the entry together.
pub open spec fn at_work(phase: Phase) -> bool {
    phase == Phase::Clearing || phase == Phase::TmpDir || phase == Phase::Listing || phase
        == Phase::Filling || phase == Phase::Publishing
}

/// What holds of the world at every moment: the maker that holds the lock is
/// the one that thinks it does; nobody is at work on an entry that is there;
/// and the entry was renamed into place once at most, and is there if it was.
pub open spec fn sound(w: World) -> bool {
    &&& forall|i: int| 0 <= i < w.makers.len() ==> in_order(#[trigger] w.makers[i])
    &&& forall|i: int|
        0 <= i < w.makers.len() ==> ((#[trigger] w.makers[i]).locked <==> w.holder == Some(i))
    &&& w.holder matches Some(h) ==> 0 <= h < w.makers.len()
    &&& forall|i: int| 0 <= i < w.makers.len() ==> at_work((#[trigger] w.makers[i]).phase)
        ==> !w.exists
    &&& w.published <= 1
    &&& w.published > 0 ==> w.exists
}

/// A turn keeps the world sound.
pub proof fn lemma_turn_sound(w: World, who: int, answer: Answer)
    requires
        sound(w),
    ensures
        sound(turn(w, who, answer)),
{
    let after = turn(w, who, answer);
    if 0 <= who < w.makers.len() {
        match event_for(w, who, answer) {
            None => {},
            Some(event) => {
                lemma_step_in_order(w.makers[who], event);
                assert forall|i: int| 0 <= i < after.makers.len() implies in_order(
                    #[trigger] after.makers[i],
                ) && (after.makers[i].locked <==> after.holder == Some(i)) && (at_work(
                    after.makers[i].phase,
                ) ==> !after.exists) by {
                    if i != who {
                        assert(after.makers[i] == w.makers[i]);
                        assert(in_order(w.makers[i]));
                    }
                }
            },
        }
    }
}

/// The world is sound after any run of turns from the start.
pub proof fn lemma_turns_sound(
    count: nat,
    exists: bool,
    entry: EntryView,
    remote: Option<RemoteTreeView>,
    script: Seq<ActionView>,
    turns: Seq<(int, Answer)>,
)
    ensures
        sound(after_turns(start(count, exists, entry, remote, script), turns)),
    decreases turns.len(),
{
    if turns.len() > 0 {
        lemma_turns_sound(count, exists, entry, remote, script, turns.drop_last());
        lemma_turn_sound(
            after_turns(start(count, exists, entry, remote, script), turns.drop_last()),
            turns.last().0,
            turns.last().1,
        );
    }
}

/// At-most-once materialization. However many makers are after one entry,
/// in whatever order they take their turns, and whatever fails on the way:
/// the entry is renamed into its final place once at most; the lock is held
/// by one maker at most; and nobody renames, or is at work at all, while the
/// entry is there.
pub proof fn lemma_entry_is_made_once(
    count: nat,
    exists: bool,
    entry: EntryView,
    remote: Option<RemoteTreeView>,
    script: Seq<ActionView>,
    turns: Seq<(int, Answer)>,
)
    ensures
        ({
            let w = after_turns(start(count, exists, entry, remote, script), turns);
            &&& w.published <= 1
            &&& w.published == 1 ==> w.exists
            &&& forall|i: int, j: int|
                0 <= i < w.makers.len() && 0 <= j < w.makers.len() && (#[trigger] w.makers[i]).locked
                    && (#[trigger] w.makers[j]).locked ==> i == j
            &&& forall|i: int|
                0 <= i < w.makers.len() && at_work((#[trigger] w.makers[i]).phase) ==> !w.exists
        }),
{
    lemma_turns_sound(count, exists, entry, remote, script, turns);
}

/// Whether nothing was done about an entry: every maker either has not had
/// its first answer or is finished, no step of a script was handed out, and
/// nothing was renamed.
pub open spec fn untouched(w: World) -> bool {
    &&& w.exists
    &&& w.published == 0
    &&& w.holder is None
    &&& forall|i: int|
        0 <= i < w.makers.len() ==> {
            &&& ((#[trigger] w.makers[i]).phase == Phase::FastCheck || w.makers[i].phase
                == Phase::Finished)
            &&& w.makers[i].next == 0
            &&& !w.makers[i].locked
        }
}

/// Idempotent materialization. Where the entry is there from the start,
/// however many makers come for it and in whatever order: each is finished
/// after one look, and nothing is locked, fetched or renamed.
pub proof fn lemma_existing_entry_is_left_alone(
    count: nat,
    entry: EntryView,
    remote: Option<RemoteTreeView>,
    script: Seq<ActionView>,
    turns: Seq<(int, Answer)>,
)
    ensures
        untouched(after_turns(start(count, true, entry, remote, script), turns)),
    decreases turns.len(),
{
    if turns.len() > 0 {
        lemma_existing_entry_is_left_alone(count, entry, remote, script, turns.drop_last());
        let w = after_turns(start(count, true, entry, remote, script), turns.drop_last());
        let who = turns.last().0;
        let after = turn(w, who, turns.last().1);
        if 0 <= who < w.makers.len() {
            assert forall|i: int| 0 <= i < after.makers.len() implies {
                &&& ((#[trigger] after.makers[i]).phase == Phase::FastCheck || after.makers[i].phase
                    == Phase::Finished)
                &&& after.makers[i].next == 0
                &&& !after.makers[i].locked
            } by {
                if i != who {
                    assert(after.makers[i] == w.makers[i]);
                }
            }
        }
    }
}

} // verus!
