//! Loot records: one obtained item as a log line reports it, and one line of
//! the ledger.

use crate::silver::{saturated, Silver};
use vstd::prelude::*;

verus! {

/// Which of the game's logs is read.
#[derive(Clone, Copy, Debug, PartialEq, Eq, Structural)]
pub enum LootDetectionMode {
    /// The chat window, where a line reads
    /// `You have obtained [Item]x3. (16:08)`.
    OCRChatLootViaStream,
    /// The drop log panel, where a line reads `Item x 3`.
    OCRDropLogViaStream,
}

/// An obtained item. As an event it holds the name, the amount and the time
/// of day that a log line gave; as a line of the ledger it also holds the
/// item's id and unit price, and its amount is the sum of the events'.
#[derive(Debug)]
pub struct LootData {
    pub id: u64,
    pub name: String,
    pub amount: u64,
    pub price: Silver,
    pub hour: u8,
    pub minute: u8,
}

/// What a `LootData` holds, as plain values.
pub struct LootView {
    pub id: u64,
    pub name: Seq<char>,
    pub amount: u64,
    pub price: nat,
    pub hour: u8,
    pub minute: u8,
}

impl View for LootData {
    type V = LootView;

    open spec fn view(&self) -> LootView {
        LootView {
            id: self.id,
            name: self.name@,
            amount: self.amount,
            price: self.price@,
            hour: self.hour,
            minute: self.minute,
        }
    }
}

/// The event that a log line gives: a name, an amount and a time of day, with
/// no id and no price yet.
pub open spec fn event(name: Seq<char>, amount: u64, hour: u8, minute: u8) -> LootView {
    LootView { id: 0, name, amount, price: 0, hour, minute }
}

/// The views of the records of `v`, in order.
pub open spec fn views(v: Seq<LootData>) -> Seq<LootView> {
    v.map_values(|d: LootData| d@)
}

impl Clone for LootData {
    fn clone(&self) -> (r: Self)
        ensures
            r@ == self@,
    {
        LootData {
            id: self.id,
            name: self.name.clone(),
            amount: self.amount,
            price: self.price,
            hour: self.hour,
            minute: self.minute,
        }
    }
}

impl Default for LootData {
    fn default() -> (r: Self)
        ensures
            r@ == event(Seq::empty(), 0, 0, 0),
    {
        LootData { id: 0, name: String::new(), amount: 0, price: Silver::new(0), hour: 0, minute: 0 }
    }
}

impl LootData {
    /// What the record is worth: its amount times its unit price, held to
    /// 64 bits.
    pub fn calculate(&self) -> (worth: Silver)
        ensures
            worth == Silver::of(saturated(self.amount as nat * self.price@)),
    {
        self.amount * self.price
    }
}

/// A copy of the records of `v`.
pub fn copy_all(v: &Vec<LootData>) -> (r: Vec<LootData>)
    ensures
        views(r@) == views(v@),
{
    let mut r: Vec<LootData> = Vec::new();
    let mut i: usize = 0;
    while i < v.len()
        invariant
            i <= v.len(),
            r@.len() == i,
            views(r@) == views(v@.take(i as int)),
        decreases v.len() - i,
    {
        let d = v[i].clone();
        let ghost before = r@;
        r.push(d);
        proof {
            assert forall|j: int| 0 <= j < i + 1 implies views(r@)[j] == views(v@.take(i + 1))[j] by {
                if j < i {
                    assert(views(before)[j] == views(v@.take(i as int))[j]);
                }
            }
            assert(views(r@) =~= views(v@.take(i + 1)));
        }
        i += 1;
    }
    assert(v@.take(v@.len() as int) =~= v@);
    r
}

} // verus!
