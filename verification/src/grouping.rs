//! The grouping engine: turns a chronologically ordered message sequence into
//! a room history, a sequence of visual runs in which no two adjacent runs
//! share an author.
//!
//! Two entry points exist: `group_into_user_messages` for a bulk history load,
//! and `append_message` for one live message arriving at the end of an
//! existing history. Folding the latter over a whole per-room sequence yields
//! the same history as the former (`lemma_group_is_fold_of_append`).

use vstd::prelude::*;

use crate::messages::{EntryModel, MsgModel, RoomMessage, RunModel, UserMessages};

verus! {

/// The run entry a message contributes: its content and timestamp.
pub open spec fn entry_of(m: MsgModel) -> EntryModel {
    EntryModel { content: m.content, timestamp: m.timestamp }
}

/// A fresh one-entry run holding `m`, labelled with the given room.
pub open spec fn singleton_run(m: MsgModel, room: Seq<char>) -> RunModel {
    RunModel { user: m.user, room, entries: seq![entry_of(m)] }
}

/// `run` with `m`'s entry appended at its end.
pub open spec fn extend_run(run: RunModel, m: MsgModel) -> RunModel {
    RunModel { user: run.user, room: run.room, entries: run.entries.push(entry_of(m)) }
}

/// One step of bulk grouping: extend the last run while the author streak
/// continues, else open a new run. Bulk grouping labels every run with the
/// room of the first message of the batch, which `room` carries.
pub open spec fn group_step(h: Seq<RunModel>, m: MsgModel, room: Seq<char>) -> Seq<RunModel> {
    if h.len() > 0 && h.last().user == m.user {
        h.update(h.len() - 1, extend_run(h.last(), m))
    } else {
        h.push(singleton_run(m, room))
    }
}

/// The history obtained by grouping `ms` in order.
pub open spec fn spec_group(ms: Seq<MsgModel>) -> Seq<RunModel>
    decreases ms.len(),
{
    if ms.len() == 0 {
        Seq::<RunModel>::empty()
    } else {
        group_step(spec_group(ms.drop_last()), ms.last(), ms[0].room)
    }
}

/// One live message appended to an existing history: the last run is extended
/// exactly when it has the same author and the same room, else a new
/// one-entry run is appended, labelled with the message's own room.
pub open spec fn spec_append(h: Seq<RunModel>, m: MsgModel) -> Seq<RunModel> {
    if h.len() > 0 && h.last().user == m.user && h.last().room == m.room {
        h.update(h.len() - 1, extend_run(h.last(), m))
    } else {
        h.push(singleton_run(m, m.room))
    }
}

/// `spec_append` folded over `ms`, starting from the empty history.
pub open spec fn fold_append(ms: Seq<MsgModel>) -> Seq<RunModel>
    decreases ms.len(),
{
    if ms.len() == 0 {
        Seq::<RunModel>::empty()
    } else {
        spec_append(fold_append(ms.drop_last()), ms.last())
    }
}

/// The grouping invariant: no two adjacent runs share an author.
pub open spec fn no_adjacent_same_author(h: Seq<RunModel>) -> bool {
    forall|i: int| 0 <= i < h.len() - 1 ==> h[i].user != #[trigger] h[i + 1].user
}

/// Every run holds at least one entry.
pub open spec fn runs_nonempty(h: Seq<RunModel>) -> bool {
    forall|i: int| 0 <= i < h.len() ==> #[trigger] h[i].entries.len() > 0
}

/// Every run carries the given room label.
pub open spec fn runs_in_room(h: Seq<RunModel>, room: Seq<char>) -> bool {
    forall|i: int| 0 <= i < h.len() ==> #[trigger] h[i].room == room
}

/// The messages a single run stands for, in order.
pub open spec fn run_messages(run: RunModel) -> Seq<MsgModel> {
    run.entries.map(
        |i: int, e: EntryModel|
            MsgModel { user: run.user, room: run.room, content: e.content, timestamp: e.timestamp },
    )
}

/// The full message sequence a history stands for: all entries of all runs,
/// in order.
pub open spec fn flatten_runs(h: Seq<RunModel>) -> Seq<MsgModel>
    decreases h.len(),
{
    if h.len() == 0 {
        Seq::<MsgModel>::empty()
    } else {
        flatten_runs(h.drop_last()) + run_messages(h.last())
    }
}

/// Chronological order: timestamps never decrease along the sequence.
pub open spec fn sorted_by_timestamp(ms: Seq<MsgModel>) -> bool {
    forall|i: int, j: int|
        0 <= i < j < ms.len() ==> #[trigger] ms[i].timestamp <= #[trigger] ms[j].timestamp
}

/// All messages of the sequence belong to one room.
pub open spec fn one_room(ms: Seq<MsgModel>) -> bool {
    forall|i: int| 0 <= i < ms.len() ==> #[trigger] ms[i].room == ms[0].room
}

/// Groups a chronologically ascending message sequence into a room history:
/// consecutive same-author messages collapse into one run. Callers must
/// reverse a server-returned newest-first history before calling.
pub fn group_into_user_messages(messages: Vec<RoomMessage>) -> (res: Vec<UserMessages>)
    requires
        sorted_by_timestamp(messages.deep_view()),
    ensures
        res.deep_view() == spec_group(messages.deep_view()),
{
    let ghost ms = messages.deep_view();
    if messages.len() == 0 {
        let res = Vec::<UserMessages>::new();
        proof {
            assert(res.deep_view() =~= spec_group(ms));
        }
        return res;
    }
    let mut prev_user = messages[0].user.clone();
    let room = messages[0].room.clone();
    let mut current = UserMessages::new(messages[0].user.clone(), room.clone());
    current.add_message(messages[0].message.clone(), messages[0].timestamp);
    let mut grouped: Vec<UserMessages> = Vec::new();
    proof {
        assert(ms.take(1).len() == 1);
        assert(ms.take(1).drop_last() =~= Seq::<MsgModel>::empty());
        assert(spec_group(Seq::<MsgModel>::empty()) == Seq::<RunModel>::empty());
        assert(ms.take(1).last() == ms[0]);
        assert(ms.take(1)[0] == ms[0]);
        assert(spec_group(ms.take(1)) == group_step(
            Seq::<RunModel>::empty(),
            ms[0],
            ms[0].room,
        ));
        assert(current@.entries =~= seq![entry_of(ms[0])]);
        assert(current@ == singleton_run(ms[0], ms[0].room));
        assert(spec_group(ms.take(1)) =~= grouped.deep_view().push(current@));
    }
    let mut i: usize = 1;
    while i < messages.len()
        invariant
            1 <= i <= ms.len(),
            ms == messages.deep_view(),
            room@ == ms[0].room,
            prev_user@ == current@.user,
            spec_group(ms.take(i as int)) == grouped.deep_view().push(current@),
        decreases messages.len() - i,
    {
        let ghost prefix = ms.take(i as int);
        let ghost h = spec_group(prefix);
        proof {
            assert(ms.take(i + 1).drop_last() =~= prefix);
            assert(ms.take(i + 1).last() == ms[i as int]);
            assert(ms.take(i + 1)[0] == ms[0]);
            assert(h.last() == current@);
        }
        if messages[i].user != prev_user {
            grouped.push(current);
            prev_user = messages[i].user.clone();
            current = UserMessages::new(messages[i].user.clone(), room.clone());
            current.add_message(messages[i].message.clone(), messages[i].timestamp);
            proof {
                assert(current@.entries =~= seq![entry_of(ms[i as int])]);
                assert(current@ == singleton_run(ms[i as int], ms[0].room));
                assert(spec_group(ms.take(i + 1)) =~= grouped.deep_view().push(current@));
            }
        } else {
            current.add_message(messages[i].message.clone(), messages[i].timestamp);
            proof {
                assert(current@ == extend_run(h.last(), ms[i as int]));
                assert(spec_group(ms.take(i + 1)) =~= grouped.deep_view().push(current@));
            }
        }
        i = i + 1;
    }
    proof {
        assert(ms.take(ms.len() as int) =~= ms);
    }
    grouped.push(current);
    grouped
}

/// Appends one live message at the end of a room history: the last run is
/// extended when it continues the same author's streak in the same room, else
/// a new one-entry run is opened. Extending keeps the run count and adds one
/// entry to the last run; opening adds one run.
pub fn append_message(history: &mut Vec<UserMessages>, message: RoomMessage)
    ensures
        final(history).deep_view() == spec_append(old(history).deep_view(), message@),
        (old(history)@.len() > 0 && old(history).deep_view().last().user == message@.user
            && old(history).deep_view().last().room == message@.room) ==> {
            &&& final(history)@.len() == old(history)@.len()
            &&& final(history).deep_view().last().entries.len() == old(
                history,
            ).deep_view().last().entries.len() + 1
        },
        !(old(history)@.len() > 0 && old(history).deep_view().last().user == message@.user
            && old(history).deep_view().last().room == message@.room) ==> {
            &&& final(history)@.len() == old(history)@.len() + 1
            &&& final(history).deep_view().last() == singleton_run(message@, message@.room)
        },
{
    let ghost h0 = history.deep_view();
    let n = history.len();
    if n > 0 && history[n - 1].user == message.user && history[n - 1].room == message.room {
        let last = &mut history[n - 1];
        last.add_message(message.message, message.timestamp);
        proof {
            assert(final(history).deep_view() =~= spec_append(h0, message@));
        }
    } else {
        let mut run = UserMessages::new(message.user, message.room);
        let content = message.message;
        run.add_message(content, message.timestamp);
        proof {
            assert(run@.entries =~= seq![entry_of(message@)]);
        }
        history.push(run);
        proof {
            assert(final(history).deep_view() =~= spec_append(h0, message@));
        }
    }
}

/// No history produced by bulk grouping has two adjacent runs with one
/// author, and each of its runs holds at least one entry and carries the
/// room of the first grouped message.
pub proof fn lemma_group_well_formed(ms: Seq<MsgModel>)
    ensures
        no_adjacent_same_author(spec_group(ms)),
        runs_nonempty(spec_group(ms)),
        ms.len() > 0 ==> spec_group(ms).len() > 0,
        runs_in_room(spec_group(ms), if ms.len() > 0 { ms[0].room } else { Seq::<char>::empty() }),
    decreases ms.len(),
{
    if ms.len() > 0 {
        lemma_group_well_formed(ms.drop_last());
        if ms.len() > 1 {
            assert(ms.drop_last()[0] == ms[0]);
        }
    }
}

/// Appending a live message to a history that satisfies the grouping
/// invariant preserves it: no two adjacent runs share an author, and no run
/// is empty. The one excluded input is a history whose last run has the
/// message's author under another room label; room histories never hold one,
/// since every run of the history of room `r` is labelled `r`.
pub proof fn lemma_append_well_formed(h: Seq<RunModel>, m: MsgModel)
    requires
        no_adjacent_same_author(h),
        runs_nonempty(h),
        h.len() > 0 && h.last().user == m.user ==> h.last().room == m.room,
    ensures
        no_adjacent_same_author(spec_append(h, m)),
        runs_nonempty(spec_append(h, m)),
        spec_append(h, m).len() > 0,
{
}

/// Grouping equivalence: on a chronologically sorted, single-room message
/// sequence, bulk grouping and folding the live-append step over the
/// sequence from the empty history produce the same room history.
pub proof fn lemma_group_is_fold_of_append(ms: Seq<MsgModel>)
    requires
        sorted_by_timestamp(ms),
        one_room(ms),
    ensures
        spec_group(ms) == fold_append(ms),
    decreases ms.len(),
{
    if ms.len() > 0 {
        let prefix = ms.drop_last();
        assert(sorted_by_timestamp(prefix));
        assert(one_room(prefix)) by {
            if prefix.len() > 0 {
                assert(prefix[0] == ms[0]);
                assert(forall|i: int|
                    0 <= i < prefix.len() ==> #[trigger] prefix[i].room == prefix[0].room);
            }
        }
        lemma_group_is_fold_of_append(prefix);
        lemma_group_well_formed(prefix);
        let h = spec_group(prefix);
        let m = ms.last();
        assert(m.room == ms[0].room);
        if h.len() > 0 {
            assert(prefix.len() > 0);
            assert(prefix[0] == ms[0]);
            assert(h.last() == h[h.len() - 1]);
            assert(h.last().room == ms[0].room);
        }
        assert(group_step(h, m, ms[0].room) =~= spec_append(h, m));
    }
}

/// Order preservation for bulk grouping: flattening the grouped history of a
/// single-room sequence reproduces the original messages, in order, exactly.
pub proof fn lemma_group_order_preserved(ms: Seq<MsgModel>)
    requires
        one_room(ms),
    ensures
        flatten_runs(spec_group(ms)) == ms,
    decreases ms.len(),
{
    if ms.len() > 0 {
        let prefix = ms.drop_last();
        assert(one_room(prefix)) by {
            if prefix.len() > 0 {
                assert(prefix[0] == ms[0]);
                assert(forall|i: int|
                    0 <= i < prefix.len() ==> #[trigger] prefix[i].room == prefix[0].room);
            }
        }
        lemma_group_order_preserved(prefix);
        lemma_group_well_formed(prefix);
        let h = spec_group(prefix);
        let m = ms.last();
        assert(m.room == ms[0].room);
        lemma_step_flattens(h, m, ms[0].room, prefix);
        assert(flatten_runs(spec_group(ms)) =~= ms);
    }
}

/// One grouping step appends exactly the stepped message to the flattening,
/// provided the history's runs carry the step's room label.
proof fn lemma_step_flattens(h: Seq<RunModel>, m: MsgModel, room: Seq<char>, prefix: Seq<MsgModel>)
    requires
        h == spec_group(prefix),
        prefix.len() > 0 ==> room == prefix[0].room,
        m.room == room,
    ensures
        flatten_runs(group_step(h, m, room)) == flatten_runs(h).push(m),
{
    lemma_group_well_formed(prefix);
    if h.len() > 0 && h.last().user == m.user {
        let h2 = h.update(h.len() - 1, extend_run(h.last(), m));
        assert(prefix.len() > 0);
        assert(h.last() == h[h.len() - 1]);
        assert(h.last().room == room);
        assert(h2.drop_last() =~= h.drop_last());
        assert(h2.last() == extend_run(h.last(), m));
        assert(run_messages(extend_run(h.last(), m)) =~= run_messages(h.last()).push(m));
        assert(flatten_runs(h2) =~= flatten_runs(h).push(m));
    } else {
        let h2 = h.push(singleton_run(m, room));
        assert(h2.drop_last() =~= h);
        assert(run_messages(singleton_run(m, room)) =~= seq![m]);
        assert(flatten_runs(h2) =~= flatten_runs(h).push(m));
    }
}

/// Order preservation for the live path: appending one message appends
/// exactly that message to the flattening of the history.
pub proof fn lemma_append_order_preserved(h: Seq<RunModel>, m: MsgModel)
    ensures
        flatten_runs(spec_append(h, m)) == flatten_runs(h).push(m),
{
    if h.len() > 0 && h.last().user == m.user && h.last().room == m.room {
        let h2 = h.update(h.len() - 1, extend_run(h.last(), m));
        assert(h.last() == h[h.len() - 1]);
        assert(h2.drop_last() =~= h.drop_last());
        assert(h2.last() == extend_run(h.last(), m));
        assert(run_messages(extend_run(h.last(), m)) =~= run_messages(h.last()).push(m));
        assert(flatten_runs(h2) =~= flatten_runs(h).push(m));
    } else {
        let h2 = h.push(singleton_run(m, m.room));
        assert(h2.drop_last() =~= h);
        assert(run_messages(singleton_run(m, m.room)) =~= seq![m]);
        assert(flatten_runs(h2) =~= flatten_runs(h).push(m));
    }
}


/// Every entry sequence of the run is in non-decreasing timestamp order.
pub open spec fn run_entries_sorted(run: RunModel) -> bool {
    forall|a: int, b: int|
        0 <= a < b < run.entries.len() ==> #[trigger] run.entries[a].timestamp
            <= #[trigger] run.entries[b].timestamp
}

/// Every run of the history satisfies the run invariant on timestamps.
pub open spec fn runs_sorted(h: Seq<RunModel>) -> bool {
    forall|i: int| 0 <= i < h.len() ==> run_entries_sorted(#[trigger] h[i])
}

/// Bulk grouping of a chronologically sorted sequence keeps every run's
/// entries in non-decreasing timestamp order, and the last entry of the last
/// run is the last message's.
pub proof fn lemma_group_runs_sorted(ms: Seq<MsgModel>)
    requires
        sorted_by_timestamp(ms),
    ensures
        runs_sorted(spec_group(ms)),
        ms.len() > 0 ==> spec_group(ms).last().entries.last().timestamp == ms.last().timestamp,
    decreases ms.len(),
{
    if ms.len() > 0 {
        let prefix = ms.drop_last();
        assert(sorted_by_timestamp(prefix)) by {
            assert(forall|k: int| 0 <= k < prefix.len() ==> prefix[k] == ms[k]);
        }
        lemma_group_runs_sorted(prefix);
        lemma_group_well_formed(prefix);
        let h = spec_group(prefix);
        let m = ms.last();
        let h2 = spec_group(ms);
        if h.len() > 0 && h.last().user == m.user {
            let run = h.last();
            let run2 = extend_run(run, m);
            assert(prefix.len() > 0);
            assert(run == h[h.len() - 1]);
            assert(run_entries_sorted(run));
            assert(run.entries.len() > 0);
            assert(run.entries.last().timestamp == prefix.last().timestamp);
            assert(prefix.last() == ms[ms.len() - 2]);
            assert(prefix.last().timestamp <= m.timestamp);
            assert(run_entries_sorted(run2)) by {
                assert forall|a: int, b: int| 0 <= a < b < run2.entries.len() implies #[trigger] run2.entries[a].timestamp
                    <= #[trigger] run2.entries[b].timestamp by {
                    if b < run.entries.len() {
                        assert(run2.entries[a] == run.entries[a]);
                        assert(run2.entries[b] == run.entries[b]);
                    } else {
                        assert(run2.entries[b] == entry_of(m));
                        assert(run2.entries[a] == run.entries[a]);
                        assert(run.entries[a].timestamp <= run.entries[run.entries.len() - 1].timestamp);
                    }
                }
            }
            assert(h2 == h.update(h.len() - 1, run2));
            assert(runs_sorted(h2)) by {
                assert(forall|i: int| 0 <= i < h2.len() - 1 ==> h2[i] == h[i]);
                assert(h2[h2.len() - 1] == run2);
            }
            assert(h2.last().entries.last() == entry_of(m));
        } else {
            assert(h2 == h.push(singleton_run(m, ms[0].room)));
            assert(run_entries_sorted(singleton_run(m, ms[0].room)));
            assert(runs_sorted(h2)) by {
                assert(forall|i: int| 0 <= i < h2.len() - 1 ==> h2[i] == h[i]);
            }
            assert(h2.last().entries =~= seq![entry_of(m)]);
        }
    }
}

} // verus!
