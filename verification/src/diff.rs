//! Aligning two snapshots of the log. The same lines are read again and
//! again, so a new snapshot mostly repeats the one before. The alignment
//! walks both, finds where the new one goes on beyond the old one, and gives
//! what follows: the events that are new.

use crate::loot::{views, LootData, LootView};
use crate::text::{decimal_chars, decimal_digits, is_cut_short, starts_with};
use vstd::prelude::*;

verus! {

/// Whether a new reading is the same event as an old one: the same name and
/// time of day, and the same amount, or an amount whose digits are the old
/// amount's with the last ones lost.
pub open spec fn same_event(old: LootView, new: LootView) -> bool {
    &&& new.name == old.name
    &&& (old.amount == new.amount || is_cut_short(
        decimal_digits(old.amount as nat),
        decimal_digits(new.amount as nat),
    ))
    &&& old.hour == new.hour
    &&& old.minute == new.minute
}

/// The state of the walk over the two snapshots.
pub struct Scan {
    /// The next event of the old snapshot.
    pub old_index: int,
    /// The next event of the new snapshot.
    pub new_index: int,
    /// Whether the step before this one was a match.
    pub matching: bool,
    /// Where the new snapshot stood one before the first run of matches
    /// broke, if one did.
    pub fallback: Option<int>,
}

/// The walk's beginning.
pub open spec fn scan_start() -> Scan {
    Scan { old_index: 0, new_index: 0, matching: false, fallback: None }
}

/// One step of the walk. On a match both snapshots move on. When a run of
/// matches breaks, the new snapshot moves one back, and the first such place
/// is kept. In either case of no match the old snapshot moves on alone.
pub open spec fn scan_step(old: Seq<LootView>, new: Seq<LootView>, s: Scan) -> Scan {
    if same_event(old[s.old_index], new[s.new_index]) {
        Scan { old_index: s.old_index + 1, new_index: s.new_index + 1, matching: true, ..s }
    } else if s.matching {
        Scan {
            old_index: s.old_index + 1,
            new_index: s.new_index - 1,
            matching: false,
            fallback: if s.fallback is None {
                Some(s.new_index - 1)
            } else {
                s.fallback
            },
        }
    } else {
        Scan { old_index: s.old_index + 1, ..s }
    }
}

/// The walk from `s` to its end: until one of the snapshots is used up.
pub open spec fn scan(old: Seq<LootView>, new: Seq<LootView>, s: Scan) -> Scan
    decreases old.len() - s.old_index,
{
    if 0 <= s.old_index < old.len() && 0 <= s.new_index < new.len() {
        scan(old, new, scan_step(old, new, s))
    } else {
        s
    }
}

/// Where the new events begin in `new`. With nothing old, all of `new` is
/// new. Else the walk decides: where the new snapshot stands at its end, or,
/// if the walk did not end in a match and a run of matches broke before,
/// the place kept from the first break.
pub open spec fn diff_start(old: Seq<LootView>, new: Seq<LootView>) -> int {
    if new.len() == 0 || old.len() == 0 {
        0
    } else {
        let end = scan(old, new, scan_start());
        if !end.matching && end.fallback is Some {
            end.fallback->0
        } else {
            end.new_index
        }
    }
}

/// The new events: `new` from `diff_start` on.
pub open spec fn diff(old: Seq<LootView>, new: Seq<LootView>) -> Seq<LootView> {
    new.skip(diff_start(old, new))
}

/// Whether the state is one that the walk can be in.
pub open spec fn scan_ok(old: Seq<LootView>, new: Seq<LootView>, s: Scan) -> bool {
    &&& 0 <= s.old_index <= old.len()
    &&& 0 <= s.new_index <= new.len()
    &&& s.matching ==> s.new_index >= 1
    &&& s.fallback is Some ==> 0 <= s.fallback->0 < new.len()
}

/// A step keeps the state one that the walk can be in.
pub proof fn lemma_step_ok(old: Seq<LootView>, new: Seq<LootView>, s: Scan)
    requires
        scan_ok(old, new, s),
        s.old_index < old.len(),
        s.new_index < new.len(),
    ensures
        scan_ok(old, new, scan_step(old, new, s)),
{
}

/// The walk ends in a state that it can be in.
pub proof fn lemma_scan_ok(old: Seq<LootView>, new: Seq<LootView>, s: Scan)
    requires
        scan_ok(old, new, s),
    ensures
        scan_ok(old, new, scan(old, new, s)),
    decreases old.len() - s.old_index,
{
    if s.old_index < old.len() && s.new_index < new.len() {
        lemma_step_ok(old, new, s);
        lemma_scan_ok(old, new, scan_step(old, new, s));
    }
}

/// The new events are an end of the new snapshot: `diff_start` is a place in
/// it, so nothing is reported that the new snapshot does not hold, and
/// nothing out of order.
pub proof fn lemma_diff_is_suffix(old: Seq<LootView>, new: Seq<LootView>)
    ensures
        0 <= diff_start(old, new) <= new.len(),
        diff(old, new).len() == new.len() - diff_start(old, new),
        forall|i: int|
            0 <= i < diff(old, new).len() ==> diff(old, new)[i] == new[diff_start(old, new) + i],
{
    lemma_scan_ok(old, new, scan_start());
}

/// With no old snapshot, every event of the new one is new.
pub proof fn lemma_diff_from_nothing(new: Seq<LootView>)
    ensures
        diff(Seq::empty(), new) == new,
{
    assert(new.skip(0) =~= new);
}

/// A walk over two snapshots that agree event by event, as far as the old
/// one goes, ends where the old one ends.
pub proof fn lemma_scan_agreeing(old: Seq<LootView>, new: Seq<LootView>, s: Scan)
    requires
        old.len() <= new.len(),
        forall|i: int| 0 <= i < old.len() ==> same_event(old[i], new[i]),
        0 <= s.old_index <= old.len(),
        s.new_index == s.old_index,
        s.fallback is None,
        s.matching == (s.old_index > 0),
    ensures
        scan(old, new, s).new_index == old.len(),
        scan(old, new, s).fallback is None,
        old.len() > 0 ==> scan(old, new, s).matching,
    decreases old.len() - s.old_index,
{
    if s.old_index < old.len() && s.new_index < new.len() {
        lemma_scan_agreeing(old, new, scan_step(old, new, s));
    }
}

/// A new snapshot that repeats the old one event by event and then goes on
/// gives exactly what it goes on with. An event is repeated also where its
/// amount lost its last digits.
pub proof fn lemma_diff_of_extension(old: Seq<LootView>, new: Seq<LootView>)
    requires
        0 < old.len() <= new.len(),
        forall|i: int| 0 <= i < old.len() ==> same_event(old[i], new[i]),
    ensures
        diff(old, new) == new.skip(old.len() as int),
{
    lemma_scan_agreeing(old, new, scan_start());
}

/// A snapshot set against itself holds nothing new.
pub proof fn lemma_diff_of_same(old: Seq<LootView>)
    ensures
        diff(old, old) == Seq::<LootView>::empty(),
{
    if old.len() > 0 {
        lemma_diff_of_extension(old, old);
    }
    assert(old.skip(old.len() as int) =~= Seq::<LootView>::empty());
    assert(old.skip(0) =~= old);
}

/// A walk that stands at or before an event of the new snapshot which is the
/// same as no old event never gets past it.
pub proof fn lemma_scan_stops_at(old: Seq<LootView>, new: Seq<LootView>, s: Scan, k: int)
    requires
        scan_ok(old, new, s),
        0 <= k < new.len(),
        forall|j: int| 0 <= j < old.len() ==> !same_event(old[j], new[k]),
        s.new_index <= k,
        s.fallback is Some ==> s.fallback->0 <= k,
    ensures
        scan(old, new, s).new_index <= k,
        scan(old, new, s).fallback is Some ==> scan(old, new, s).fallback->0 <= k,
    decreases old.len() - s.old_index,
{
    if s.old_index < old.len() && s.new_index < new.len() {
        lemma_step_ok(old, new, s);
        lemma_scan_stops_at(old, new, scan_step(old, new, s), k);
    }
}

/// An event of the new snapshot that is the same as no event of the old one
/// is reported, and so is all that follows it.
pub proof fn lemma_unseen_is_reported(old: Seq<LootView>, new: Seq<LootView>, k: int)
    requires
        0 <= k < new.len(),
        forall|j: int| 0 <= j < old.len() ==> !same_event(old[j], new[k]),
    ensures
        diff_start(old, new) <= k,
        diff(old, new)[k - diff_start(old, new)] == new[k],
{
    lemma_diff_is_suffix(old, new);
    lemma_scan_stops_at(old, new, scan_start(), k);
}

/// One snapshot of loot records.
pub struct LootDatas(pub Vec<LootData>);

/// Whether the new record is the same event as the old one.
pub fn is_same_event(old_item: &LootData, new_item: &LootData) -> (b: bool)
    ensures
        b == same_event(old_item@, new_item@),
{
    if !(new_item.name == old_item.name) {
        return false;
    }
    if old_item.hour != new_item.hour || old_item.minute != new_item.minute {
        return false;
    }
    if old_item.amount == new_item.amount {
        return true;
    }
    let expected = decimal_chars(old_item.amount);
    let actual = decimal_chars(new_item.amount);
    actual.len() < expected.len() && starts_with(&expected, &actual)
}

impl LootDatas {
    /// Where the new events begin in `new`.
    pub fn diff_index(old: &[LootData], new: &[LootData]) -> (start: usize)
        ensures
            start == diff_start(views(old@), views(new@)),
            start <= new@.len(),
    {
        let ghost ov = views(old@);
        let ghost nv = views(new@);
        proof {
            lemma_diff_is_suffix(ov, nv);
        }
        if new.len() == 0 || old.len() == 0 {
            return 0;
        }
        let mut old_index: usize = 0;
        let mut new_index: usize = 0;
        let mut whole_match = false;
        let mut index_fallback: Option<usize> = None;
        while old_index < old.len() && new_index < new.len()
            invariant
                ov == views(old@),
                nv == views(new@),
                ov.len() == old@.len(),
                nv.len() == new@.len(),
                scan_ok(
                    ov,
                    nv,
                    Scan {
                        old_index: old_index as int,
                        new_index: new_index as int,
                        matching: whole_match,
                        fallback: match index_fallback {
                            Some(f) => Some(f as int),
                            None => None,
                        },
                    },
                ),
                scan(ov, nv, scan_start()) == scan(
                    ov,
                    nv,
                    Scan {
                        old_index: old_index as int,
                        new_index: new_index as int,
                        matching: whole_match,
                        fallback: match index_fallback {
                            Some(f) => Some(f as int),
                            None => None,
                        },
                    },
                ),
            decreases old.len() - old_index,
        {
            let ghost s = Scan {
                old_index: old_index as int,
                new_index: new_index as int,
                matching: whole_match,
                fallback: match index_fallback {
                    Some(f) => Some(f as int),
                    None => None,
                },
            };
            proof {
                lemma_step_ok(ov, nv, s);
                assert(ov[old_index as int] == old@[old_index as int]@);
                assert(nv[new_index as int] == new@[new_index as int]@);
            }
            if is_same_event(&old[old_index], &new[new_index]) {
                old_index += 1;
                new_index += 1;
                whole_match = true;
            } else {
                if whole_match {
                    whole_match = false;
                    if index_fallback.is_none() {
                        index_fallback = Some(new_index - 1);
                    }
                    new_index -= 1;
                }
                old_index += 1;
            }
        }
        if !whole_match {
            if let Some(f) = index_fallback {
                return f;
            }
        }
        new_index
    }

    /// The events of `new` that are new against `old`: an end of `new`.
    pub fn diff(old: &[LootData], new: &[LootData]) -> (out: Vec<LootData>)
        ensures
            views(out@) == diff(views(old@), views(new@)),
    {
        let start = Self::diff_index(old, new);
        let mut out: Vec<LootData> = Vec::new();
        let mut i: usize = start;
        while i < new.len()
            invariant
                start <= i <= new@.len(),
                out@.len() == i - start,
                forall|j: int| 0 <= j < out@.len() ==> (#[trigger] out@[j])@ == new@[start + j]@,
            decreases new.len() - i,
        {
            out.push(new[i].clone());
            i += 1;
        }
        assert(views(out@) =~= views(new@).skip(start as int));
        out
    }
}

} // verus!
