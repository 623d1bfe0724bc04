//! Live checkpoints: a bounded record of phase names, and how often each phase
//! was closed. The clock and the host's hook are the caller's.

use vstd::prelude::*;
use vstd::string::*;

verus! {

/// How many checkpoints the record holds.
pub const RECORD_LIMIT: usize = 512;

/// A phase, with how many intervals were counted under its name.
#[derive(Clone, Debug, PartialEq, Eq)]
pub struct PhaseCount {
    pub name: String,
    pub count: u32,
}

/// The recorded checkpoints, the open interval, and the counted phases.
pub struct LiveTrace<H> {
    pub hook: Option<H>,
    pub record: Vec<String>,
    /// The name under which the current interval will be counted.
    pub last_mark: Option<String>,
    pub phases: Vec<PhaseCount>,
}

/// The views of a list of names.
pub open spec fn names(record: Seq<String>) -> Seq<Seq<char>> {
    Seq::new(record.len(), |i: int| record[i]@)
}

/// The last `RECORD_LIMIT` of a list.
pub open spec fn latest(record: Seq<Seq<char>>) -> Seq<Seq<char>> {
    if record.len() <= RECORD_LIMIT {
        record
    } else {
        record.skip(record.len() - RECORD_LIMIT)
    }
}

/// The names and counts of the phases.
pub open spec fn counts(phases: Seq<PhaseCount>) -> Seq<(Seq<char>, u32)> {
    Seq::new(phases.len(), |i: int| (phases[i].name@, phases[i].count))
}

/// The position of a name, the length when it is not there.
pub open spec fn position(phases: Seq<(Seq<char>, u32)>, name: Seq<char>) -> nat
    decreases phases.len(),
{
    if phases.len() == 0 {
        0
    } else if phases[0].0 == name {
        0
    } else {
        1 + position(phases.skip(1), name)
    }
}

/// The phases with one more interval under a name.
pub open spec fn counted(phases: Seq<(Seq<char>, u32)>, name: Seq<char>) -> Seq<(Seq<char>, u32)> {
    let i = position(phases, name) as int;
    if i < phases.len() {
        phases.update(i, (name, (phases[i].1 + 1) as u32))
    } else {
        phases.push((name, 1))
    }
}

/// Whether a name ends in `_done`.
pub open spec fn is_closing(name: Seq<u8>) -> bool {
    name.len() >= 5 && name.skip(name.len() - 5) == seq![95u8, 100, 111, 110, 101]
}

/// Each name of the list occurs once.
pub open spec fn distinct(phases: Seq<(Seq<char>, u32)>) -> bool {
    forall|i: int, j: int|
        0 <= i < j < phases.len() ==> (#[trigger] phases[i]).0 != (#[trigger] phases[j]).0
}

proof fn lemma_position(phases: Seq<(Seq<char>, u32)>, name: Seq<char>)
    ensures
        position(phases, name) <= phases.len(),
        forall|i: int| 0 <= i < position(phases, name) ==> (#[trigger] phases[i]).0 != name,
        position(phases, name) < phases.len() ==> phases[position(phases, name) as int].0 == name,
    decreases phases.len(),
{
    if phases.len() > 0 && phases[0].0 != name {
        lemma_position(phases.skip(1), name);
        assert forall|i: int| 0 <= i < position(phases, name) implies (#[trigger] phases[i]).0
            != name by {
            if i > 0 {
                assert(phases[i] == phases.skip(1)[i - 1]);
            }
        }
    }
}

proof fn lemma_position_is(phases: Seq<(Seq<char>, u32)>, name: Seq<char>, i: int)
    requires
        0 <= i <= phases.len(),
        forall|k: int| 0 <= k < i ==> (#[trigger] phases[k]).0 != name,
        i < phases.len() ==> phases[i].0 == name,
    ensures
        position(phases, name) == i,
{
    lemma_position(phases, name);
    let p = position(phases, name) as int;
    if p < i {
        assert(phases[p].0 != name);
    }
}

/// Counting an interval keeps the names distinct: a phase is listed once.
pub proof fn counting_keeps_names_distinct(phases: Seq<(Seq<char>, u32)>, name: Seq<char>)
    requires
        distinct(phases),
    ensures
        distinct(counted(phases, name)),
{
    lemma_position(phases, name);
}

/// The record never holds more than the limit, and what it drops is the oldest.
pub proof fn record_is_bounded(record: Seq<Seq<char>>, name: Seq<char>)
    ensures
        latest(record.push(name)).len() <= RECORD_LIMIT,
        latest(record.push(name)).last() == name,
        latest(latest(record).push(name)) == latest(record.push(name)),
{
    if record.len() >= RECORD_LIMIT {
        assert(latest(latest(record).push(name)) =~= latest(record.push(name)));
    } else {
        assert(latest(record) == record);
    }
}

/// An empty trace, with no hook.
pub fn new_trace<H>() -> (t: LiveTrace<H>)
    ensures
        t.hook is None,
        names(t.record@) == Seq::<Seq<char>>::empty(),
        t.last_mark is None,
        counts(t.phases@) == Seq::<(Seq<char>, u32)>::empty(),
{
    let t = LiveTrace { hook: None, record: Vec::new(), last_mark: None, phases: Vec::new() };
    assert(names(t.record@) =~= Seq::<Seq<char>>::empty());
    assert(counts(t.phases@) =~= Seq::<(Seq<char>, u32)>::empty());
    t
}

/// Installs the host's hook, in place of any other.
pub fn install_hook<H>(trace: &mut LiveTrace<H>, hook: H)
    ensures
        final(trace).hook == Some(hook),
        final(trace).record == old(trace).record,
        final(trace).last_mark == old(trace).last_mark,
        final(trace).phases == old(trace).phases,
{
    trace.hook = Some(hook);
}

/// Records a checkpoint, dropping the oldest past the limit. The hook handed
/// back, if there is one, is to be called with the name.
pub fn checkpoint<'a, H>(trace: &'a mut LiveTrace<H>, name: &str) -> (hook: &'a Option<H>)
    requires
        old(trace).record@.len() <= RECORD_LIMIT,
    ensures
        *hook == old(trace).hook,
        final(trace).hook == old(trace).hook,
        names(final(trace).record@) == latest(names(old(trace).record@).push(name@)),
        final(trace).record@.len() <= RECORD_LIMIT,
        final(trace).last_mark == old(trace).last_mark,
        final(trace).phases == old(trace).phases,
{
    let ghost before = trace.record@;
    trace.record.push(name.to_owned());
    assert(names(trace.record@) =~= names(before).push(name@));
    if trace.record.len() > RECORD_LIMIT {
        let ghost all = trace.record@;
        let _ = trace.record.remove(0);
        assert(names(trace.record@) =~= names(all).skip(1));
    }
    &trace.hook
}

/// Drains the recorded checkpoints, oldest first.
pub fn take_recorded<H>(trace: &mut LiveTrace<H>) -> (r: Vec<String>)
    ensures
        r == old(trace).record,
        final(trace).record@.len() == 0,
        final(trace).hook == old(trace).hook,
        final(trace).last_mark == old(trace).last_mark,
        final(trace).phases == old(trace).phases,
{
    let mut r: Vec<String> = Vec::new();
    std::mem::swap(&mut r, &mut trace.record);
    r
}

/// Drains the counted phases, in the order in which they were first closed.
pub fn take_phase_counts<H>(trace: &mut LiveTrace<H>) -> (r: Vec<PhaseCount>)
    ensures
        r == old(trace).phases,
        final(trace).phases@.len() == 0,
        final(trace).hook == old(trace).hook,
        final(trace).last_mark == old(trace).last_mark,
        final(trace).record == old(trace).record,
{
    let mut r: Vec<PhaseCount> = Vec::new();
    std::mem::swap(&mut r, &mut trace.phases);
    r
}

fn ends_in_done(name: &str) -> (r: bool)
    ensures
        r == is_closing(name.spec_bytes()),
{
    let bytes = name.as_bytes();
    let n = bytes.len();
    if n < 5 {
        return false;
    }
    let r = bytes[n - 5] == 95 && bytes[n - 4] == 100 && bytes[n - 3] == 111 && bytes[n - 2] == 110
        && bytes[n - 1] == 101;
    let ghost tail = bytes@.skip(n - 5);
    assert(tail[0] == bytes@[n - 5] && tail[1] == bytes@[n - 4] && tail[2] == bytes@[n - 3]
        && tail[3] == bytes@[n - 2] && tail[4] == bytes@[n - 1]);
    proof {
        let done = seq![95u8, 100, 111, 110, 101];
        if r {
            assert(tail =~= done);
        } else {
            assert(done[0] == 95 && done[1] == 100 && done[2] == 111 && done[3] == 110 && done[4]
                == 101);
            assert(tail != done);
        }
    }
    r
}

/// Marks a point in time: the time since the last mark counts under that mark's
/// name, and a new interval opens under this one, unless the name ends in
/// `_done`. Returns the position of the phase that was counted, if any, to which
/// the elapsed time is to be added.
pub fn mark_phase<H>(trace: &mut LiveTrace<H>, name: &str) -> (r: Option<usize>)
    requires
        forall|i: int|
            0 <= i < old(trace).phases@.len() ==> (#[trigger] old(trace).phases@[i]).count
                < u32::MAX,
    ensures
        final(trace).hook == old(trace).hook,
        final(trace).record == old(trace).record,
        if is_closing(name.spec_bytes()) {
            final(trace).last_mark is None
        } else {
            final(trace).last_mark is Some && final(trace).last_mark->0@ == name@
        },
        match old(trace).last_mark {
            None => r is None && final(trace).phases == old(trace).phases,
            Some(previous) => {
                &&& r is Some
                &&& r->0 == position(counts(old(trace).phases@), previous@)
                &&& counts(final(trace).phases@) == counted(
                    counts(old(trace).phases@),
                    previous@,
                )
            },
        },
{
    let mut previous: Option<String> = if ends_in_done(name) {
        None
    } else {
        Some(name.to_owned())
    };
    std::mem::swap(&mut previous, &mut trace.last_mark);
    let previous = match previous {
        None => {
            return None;
        },
        Some(p) => p,
    };
    let ghost before = counts(trace.phases@);
    let ghost phases = trace.phases@;
    let mut i: usize = 0;
    while i < trace.phases.len()
        invariant
            i <= trace.phases@.len(),
            trace.phases@ == phases,
            trace.hook == old(trace).hook,
            trace.record == old(trace).record,
            before == counts(phases),
            forall|k: int|
                0 <= k < phases.len() ==> (#[trigger] phases[k]).count < u32::MAX,
            forall|k: int| 0 <= k < i ==> (#[trigger] before[k]).0 != previous@,
            old(trace).last_mark is Some,
            old(trace).last_mark->0@ == previous@,
            old(trace).phases@ == phases,
            if is_closing(name.spec_bytes()) {
                trace.last_mark is None
            } else {
                trace.last_mark is Some && trace.last_mark->0@ == name@
            },
        decreases trace.phases.len() - i,
    {
        if trace.phases[i].name.eq(&previous) {
            proof {
                assert(before[i as int].0 == previous@);
                lemma_position_is(before, previous@, i as int);
            }
            let count = trace.phases[i].count + 1;
            trace.phases[i].count = count;
            assert(counts(trace.phases@) =~= counted(before, previous@));
            return Some(i);
        }
        assert(before[i as int].0 != previous@);
        i = i + 1;
    }
    proof {
        lemma_position_is(before, previous@, i as int);
    }
    trace.phases.push(PhaseCount { name: previous, count: 1 });
    assert(counts(trace.phases@) =~= counted(before, previous@));
    Some(i)
}

/// An interval counts once, under its own name: that phase's count goes up by
/// one, every other phase keeps its place and its count, and a name that is new
/// comes last with a count of one.
pub proof fn an_interval_counts_once(phases: Seq<(Seq<char>, u32)>, name: Seq<char>, i: int)
    requires
        distinct(phases),
        forall|k: int| 0 <= k < phases.len() ==> (#[trigger] phases[k]).1 < u32::MAX,
    ensures
        0 <= i < phases.len() && phases[i].0 == name ==> {
            &&& counted(phases, name).len() == phases.len()
            &&& counted(phases, name)[i] == (name, (phases[i].1 + 1) as u32)
            &&& position(phases, name) == i
        },
        0 <= i < phases.len() && phases[i].0 != name ==> counted(phases, name)[i] == phases[i],
        (forall|k: int| 0 <= k < phases.len() ==> (#[trigger] phases[k]).0 != name) ==> counted(
            phases,
            name,
        ) == phases.push((name, 1u32)),
{
    lemma_position(phases, name);
    if 0 <= i < phases.len() && phases[i].0 == name {
        lemma_position_is(phases, name, i);
    }
}

/// Up to 512 checkpoints are all kept; past that the latest 512 are.
pub proof fn the_latest_checkpoints_are_kept(record: Seq<Seq<char>>)
    ensures
        record.len() <= 512 ==> latest(record) == record,
        record.len() > 512 ==> latest(record).len() == 512 && forall|i: int|
            0 <= i < 512 ==> #[trigger] latest(record)[i] == record[record.len() - 512 + i],
{
}

/// A name closes if and only if it ends in the five bytes of `_done`.
pub proof fn closing_names_end_in_done(stem: Seq<u8>, name: Seq<u8>)
    ensures
        is_closing(stem + seq![95u8, 100, 111, 110, 101]),
        is_closing(name) ==> name == name.take(name.len() - 5) + seq![95u8, 100, 111, 110, 101],
        name.len() < 5 ==> !is_closing(name),
{
    let done = seq![95u8, 100, 111, 110, 101];
    let whole = stem + done;
    assert(whole.skip(whole.len() - 5) =~= done);
    if is_closing(name) {
        assert(name =~= name.take(name.len() - 5) + name.skip(name.len() - 5));
    }
}

} // verus!
