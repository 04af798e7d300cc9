//! The ledger: one line for each item, by name, with the amount obtained so
//! far. Lines are added and amounts grow; nothing is taken away but by
//! clearing the whole ledger.

use crate::item_fetcher::{answer_view, FetchError, ItemData, ItemFetcher, ItemView};
use crate::loot::{copy_all, views, LootData, LootView};
use crate::resolver::{names, resolve, resolved};
use crate::silver::{saturated, Silver};
use vstd::prelude::*;

verus! {

/// An item of the catalogue as the ledger needs it: its id, its name and the
/// price of one.
#[derive(Debug)]
pub struct Item {
    pub id: u64,
    pub name: String,
    pub price: Silver,
}

/// What an `Item` holds, as plain values.
pub struct PricedItem {
    pub id: u64,
    pub name: Seq<char>,
    pub price: nat,
}

impl View for Item {
    type V = PricedItem;

    open spec fn view(&self) -> PricedItem {
        PricedItem { id: self.id, name: self.name@, price: self.price@ }
    }
}

/// The price of one: what the market pays, where it pays anything, and else
/// what the vendor pays.
pub open spec fn unit_price(item: ItemView) -> u64 {
    if item.market_sell_price > 0 {
        item.market_sell_price
    } else {
        item.vendor_sell_price
    }
}

/// The item that a lookup's answer gives the ledger, if it gave one.
pub open spec fn priced(answer: Result<ItemData, FetchError>) -> Option<PricedItem> {
    match answer {
        Ok(data) => Some(PricedItem { id: data.id, name: data.name@, price: unit_price(data@) as nat }),
        Err(_) => None,
    }
}

/// The optional item, as plain values.
pub open spec fn item_view(r: Option<Item>) -> Option<PricedItem> {
    match r {
        Some(i) => Some(i@),
        None => None,
    }
}

/// The item that a lookup's answer gives the ledger: with the market's price
/// where that is above nought, else with the vendor's. A lookup that failed
/// gives none.
pub fn item_of(answer: Result<ItemData, FetchError>) -> (r: Option<Item>)
    ensures
        item_view(r) == priced(answer),
{
    match answer {
        Ok(data) => {
            let price = if data.market_sell_price > 0 {
                Silver::new(data.market_sell_price)
            } else {
                Silver::new(data.vendor_sell_price)
            };
            Some(Item { id: data.id, name: data.name, price })
        },
        Err(_) => None,
    }
}

/// The names of the lines, in order.
pub open spec fn keys(s: Seq<LootView>) -> Seq<Seq<char>> {
    s.map_values(|e: LootView| e.name)
}

/// Whether no two lines have the same name.
pub open spec fn distinct_names(s: Seq<LootView>) -> bool {
    forall|i: int, j: int| 0 <= i < j < s.len() ==> (#[trigger] s[i]).name != (#[trigger] s[j]).name
}

/// Where the line of that name stands, or the number of lines if there is
/// none.
pub open spec fn index_of_name(s: Seq<LootView>, name: Seq<char>) -> int
    decreases s.len(),
{
    if s.len() == 0 {
        0
    } else if s[0].name == name {
        0
    } else {
        1 + index_of_name(s.drop_first(), name)
    }
}

/// The line with the event's amount added to it, held to 64 bits.
pub open spec fn credited(line: LootView, ev: LootView) -> LootView {
    LootView { amount: saturated(line.amount as nat + ev.amount as nat), ..line }
}

/// The line that an event opens, with the id and price of the item found.
pub open spec fn opened(ev: LootView, item: PricedItem) -> LootView {
    LootView {
        id: item.id,
        name: ev.name,
        amount: ev.amount,
        price: item.price,
        hour: ev.hour,
        minute: ev.minute,
    }
}

/// The ledger after one event. An event whose name has a line adds its
/// amount to that line. Another event opens a line at the end, if the
/// catalogue gave its item; if not, the ledger stays as it is.
pub open spec fn integrated(s: Seq<LootView>, ev: LootView, found: Option<PricedItem>) -> Seq<
    LootView,
> {
    let i = index_of_name(s, ev.name);
    if i < s.len() {
        s.update(i, credited(s[i], ev))
    } else {
        match found {
            Some(item) => s.push(opened(ev, item)),
            None => s,
        }
    }
}

/// The ledger after the events, one after the other, each with what the
/// catalogue gave for it.
pub open spec fn integrated_all(
    s: Seq<LootView>,
    events: Seq<LootView>,
    found: Seq<Option<PricedItem>>,
) -> Seq<LootView>
    decreases events.len(),
{
    if events.len() == 0 || found.len() != events.len() {
        s
    } else {
        integrated(
            integrated_all(s, events.drop_last(), found.drop_last()),
            events.last(),
            found.last(),
        )
    }
}

/// Whether `new` is `old` grown: every line of `old` is still there, in its
/// place, with the same item, and with no lesser amount.
pub open spec fn grows_from(old: Seq<LootView>, new: Seq<LootView>) -> bool {
    &&& old.len() <= new.len()
    &&& forall|i: int|
        0 <= i < old.len() ==> (#[trigger] new[i]).amount >= old[i].amount && new[i] == (LootView {
            amount: new[i].amount,
            ..old[i]
        })
}

/// `index_of_name` is the least place whose line has the name.
pub proof fn lemma_index_of_name(s: Seq<LootView>, name: Seq<char>)
    ensures
        0 <= index_of_name(s, name) <= s.len(),
        forall|j: int| 0 <= j < index_of_name(s, name) ==> (#[trigger] s[j]).name != name,
        index_of_name(s, name) < s.len() ==> s[index_of_name(s, name)].name == name,
    decreases s.len(),
{
    if s.len() > 0 && s[0].name != name {
        let rest = s.drop_first();
        lemma_index_of_name(rest, name);
        assert forall|j: int| 0 <= j < index_of_name(s, name) implies (#[trigger] s[j]).name
            != name by {
            if j > 0 {
                assert(s[j] == rest[j - 1]);
            }
        }
    }
}

/// A place before which no line has the name, and whose line has it or which
/// is the end, is `index_of_name`.
pub proof fn lemma_index_of_name_is(s: Seq<LootView>, name: Seq<char>, k: int)
    requires
        0 <= k <= s.len(),
        forall|j: int| 0 <= j < k ==> (#[trigger] s[j]).name != name,
        k < s.len() ==> s[k].name == name,
    ensures
        index_of_name(s, name) == k,
{
    lemma_index_of_name(s, name);
    let f = index_of_name(s, name);
    if f < k {
        assert(s[f].name != name);
    } else if f > k {
        assert(s[k].name == name);
    }
}

/// An event never takes anything from the ledger: the ledger after it is the
/// ledger before it, grown.
pub proof fn lemma_integrated_grows(s: Seq<LootView>, ev: LootView, found: Option<PricedItem>)
    ensures
        grows_from(s, integrated(s, ev, found)),
{
    lemma_index_of_name(s, ev.name);
}

/// No number of events takes anything from the ledger.
pub proof fn lemma_integrated_all_grows(
    s: Seq<LootView>,
    events: Seq<LootView>,
    found: Seq<Option<PricedItem>>,
)
    ensures
        grows_from(s, integrated_all(s, events, found)),
    decreases events.len(),
{
    if events.len() > 0 && found.len() == events.len() {
        let before = integrated_all(s, events.drop_last(), found.drop_last());
        lemma_integrated_all_grows(s, events.drop_last(), found.drop_last());
        lemma_integrated_grows(before, events.last(), found.last());
    }
}

/// An event keeps the names of the ledger apart.
pub proof fn lemma_integrated_distinct(s: Seq<LootView>, ev: LootView, found: Option<PricedItem>)
    requires
        distinct_names(s),
    ensures
        distinct_names(integrated(s, ev, found)),
{
    lemma_index_of_name(s, ev.name);
    let t = integrated(s, ev, found);
    assert forall|i: int, j: int| 0 <= i < j < t.len() implies (#[trigger] t[i]).name != (
    #[trigger] t[j]).name by {
        if j < s.len() {
            assert(s[i].name != s[j].name);
        } else {
            assert(s[i].name != ev.name);
        }
    }
}

/// What changes and what does not: the ledger after an event is the ledger
/// before it exactly when the event's name has no line and the catalogue
/// gave no item, or when its line cannot hold more.
pub proof fn lemma_integrated_same(s: Seq<LootView>, ev: LootView, found: Option<PricedItem>)
    ensures
        integrated(s, ev, found) == s <==> {
            let i = index_of_name(s, ev.name);
            if i < s.len() {
                ev.amount == 0 || s[i].amount == u64::MAX
            } else {
                found is None
            }
        },
{
    lemma_index_of_name(s, ev.name);
    let i = index_of_name(s, ev.name);
    let t = integrated(s, ev, found);
    if i < s.len() {
        if ev.amount == 0 || s[i].amount == u64::MAX {
            assert(t =~= s);
        } else {
            assert(t[i].amount != s[i].amount);
        }
    } else if found is Some {
        assert(t.len() != s.len());
    }
}

/// The ledger.
pub struct Ledger {
    entries: Vec<LootData>,
}

impl View for Ledger {
    type V = Seq<LootView>;

    closed spec fn view(&self) -> Seq<LootView> {
        views(self.entries@)
    }
}

impl Ledger {
    #[verifier::type_invariant]
    spec fn names_apart(&self) -> bool {
        distinct_names(views(self.entries@))
    }

    /// A ledger without lines.
    pub fn new() -> (ledger: Ledger)
        ensures
            ledger@ == Seq::<LootView>::empty(),
    {
        let ledger = Ledger { entries: Vec::new() };
        assert(views(ledger.entries@) =~= Seq::<LootView>::empty());
        ledger
    }

    /// The number of lines.
    pub fn len(&self) -> (n: usize)
        ensures
            n == self@.len(),
    {
        self.entries.len()
    }

    /// Whether the ledger has no line.
    pub fn is_empty(&self) -> (b: bool)
        ensures
            b == (self@.len() == 0),
    {
        self.entries.len() == 0
    }

    /// The lines, in the order in which they were opened. No two of them
    /// have the same name.
    pub fn lines(&self) -> (r: &Vec<LootData>)
        ensures
            views(r@) == self@,
            distinct_names(self@),
    {
        proof {
            use_type_invariant(self);
        }
        &self.entries
    }

    /// A copy of the lines.
    pub fn snapshot(&self) -> (r: Vec<LootData>)
        ensures
            views(r@) == self@,
    {
        copy_all(&self.entries)
    }

    /// Where the line of that name stands, if there is one.
    pub fn find(&self, name: &String) -> (at: Option<usize>)
        ensures
            match at {
                Some(i) => i == index_of_name(self@, name@) && i < self@.len(),
                None => index_of_name(self@, name@) == self@.len(),
            },
    {
        let mut i: usize = 0;
        while i < self.entries.len()
            invariant
                i <= self.entries.len(),
                self@ == views(self.entries@),
                forall|j: int| 0 <= j < i ==> (#[trigger] self@[j]).name != name@,
            decreases self.entries.len() - i,
        {
            assert(self@[i as int] == self.entries@[i as int]@);
            if self.entries[i].name == *name {
                proof {
                    lemma_index_of_name_is(self@, name@, i as int);
                }
                return Some(i);
            }
            i += 1;
        }
        proof {
            lemma_index_of_name_is(self@, name@, self@.len() as int);
        }
        None
    }

    /// The name that the ledger has for a name as it was read.
    pub fn resolve(&self, name: &String) -> (r: String)
        ensures
            r@ == resolved(keys(self@), name@),
    {
        assert(names(self.entries@) =~= keys(self@));
        resolve(name, &self.entries)
    }

    /// Takes one event into the ledger, `found` being what the catalogue gave
    /// for its name. Tells whether the ledger is another than before.
    pub fn integrate(&mut self, ev: &LootData, found: Option<Item>) -> (changed: bool)
        ensures
            final(self)@ == integrated(old(self)@, ev@, item_view(found)),
            changed == (final(self)@ != old(self)@),
            distinct_names(final(self)@),
            grows_from(old(self)@, final(self)@),
    {
        let ghost before = self@;
        let ghost f = item_view(found);
        proof {
            use_type_invariant(&*self);
            lemma_integrated_distinct(before, ev@, f);
            lemma_integrated_grows(before, ev@, f);
            lemma_integrated_same(before, ev@, f);
        }
        match self.find(&ev.name) {
            Some(i) => {
                let line = &self.entries[i];
                assert(line@ == before[i as int]);
                let amount = line.amount.saturating_add(ev.amount);
                let changed = amount != line.amount;
                let credited_line = LootData {
                    id: line.id,
                    name: line.name.clone(),
                    amount,
                    price: line.price,
                    hour: line.hour,
                    minute: line.minute,
                };
                let ghost target = integrated(before, ev@, f);
                let mut entries: Vec<LootData> = Vec::new();
                std::mem::swap(&mut entries, &mut self.entries);
                entries.set(i, credited_line);
                assert(views(entries@) =~= target);
                self.entries = entries;
                changed
            },
            None => {
                match found {
                    Some(item) => {
                        let line = LootData {
                            id: item.id,
                            name: ev.name.clone(),
                            amount: ev.amount,
                            price: item.price,
                            hour: ev.hour,
                            minute: ev.minute,
                        };
                        let ghost target = integrated(before, ev@, f);
                        let mut entries: Vec<LootData> = Vec::new();
                        std::mem::swap(&mut entries, &mut self.entries);
                        entries.push(line);
                        assert(views(entries@) =~= target);
                        self.entries = entries;
                        true
                    },
                    None => false,
                }
            },
        }
    }

    /// Takes every line away.
    pub fn clear(&mut self)
        ensures
            final(self)@ == Seq::<LootView>::empty(),
    {
        self.entries = Vec::new();
        assert(views(self.entries@) =~= Seq::<LootView>::empty());
    }
}

/// The item that a catalogue's answer gives the ledger, if it gave one: with
/// the market's price where that is above nought, else with the vendor's.
pub open spec fn priced_of(answer: Result<ItemView, FetchError>) -> Option<PricedItem> {
    match answer {
        Ok(data) => Some(PricedItem { id: data.id, name: data.name, price: unit_price(data) as nat }),
        Err(_) => None,
    }
}

/// `priced` goes by the answer's plain values.
pub proof fn lemma_priced(answer: Result<ItemData, FetchError>)
    ensures
        priced(answer) == priced_of(answer_view(answer)),
{
}

/// Whether `found` is what the catalogue gave for the event, the ledger
/// standing as `s`. For an event whose name has a line the catalogue is not
/// asked, and nothing is found. For another event the catalogue is asked for
/// the event's name, and `found` is the item of one of its answers, or
/// nothing where it answered with an error.
pub open spec fn looked_up<F: ItemFetcher>(
    fetcher: &F,
    s: Seq<LootView>,
    ev: LootView,
    found: Option<PricedItem>,
) -> bool {
    if index_of_name(s, ev.name) < s.len() {
        found is None
    } else {
        exists|answer: Result<ItemView, FetchError>|
            #[trigger] fetcher.answers(ev.name, answer) && found == priced_of(answer)
    }
}

/// Whether each of `found` is what the catalogue gave for its event, the
/// events taken into the ledger one after the other.
pub open spec fn all_looked_up<F: ItemFetcher>(
    fetcher: &F,
    s: Seq<LootView>,
    events: Seq<LootView>,
    found: Seq<Option<PricedItem>>,
) -> bool
    decreases events.len(),
{
    if events.len() == 0 || found.len() != events.len() {
        found.len() == events.len()
    } else {
        &&& all_looked_up(fetcher, s, events.drop_last(), found.drop_last())
        &&& looked_up(
            fetcher,
            integrated_all(s, events.drop_last(), found.drop_last()),
            events.last(),
            found.last(),
        )
    }
}

/// The sum of the amounts of the lines, or of the events.
pub open spec fn total(s: Seq<LootView>) -> nat
    decreases s.len(),
{
    if s.len() == 0 {
        0
    } else {
        total(s.drop_last()) + s.last().amount as nat
    }
}

/// The sum of the amounts of the events of that name.
pub open spec fn name_total(events: Seq<LootView>, name: Seq<char>) -> nat
    decreases events.len(),
{
    if events.len() == 0 {
        0
    } else if events.last().name == name {
        name_total(events.drop_last(), name) + events.last().amount as nat
    } else {
        name_total(events.drop_last(), name)
    }
}

/// Whether every event found its line: at its turn its name had a line, or
/// the catalogue gave its item.
pub open spec fn all_found(
    s: Seq<LootView>,
    events: Seq<LootView>,
    found: Seq<Option<PricedItem>>,
) -> bool
    decreases events.len(),
{
    if events.len() == 0 || found.len() != events.len() {
        true
    } else {
        let before = integrated_all(s, events.drop_last(), found.drop_last());
        &&& all_found(s, events.drop_last(), found.drop_last())
        &&& (index_of_name(before, events.last().name) < before.len() || found.last() is Some)
    }
}

/// Whether a catalogue has an item for every name: it never answers with an
/// error.
pub open spec fn always_finds<F: ItemFetcher>(fetcher: &F) -> bool {
    forall|name: Seq<char>, answer: Result<ItemView, FetchError>|
        #[trigger] fetcher.answers(name, answer) ==> answer is Ok
}

/// Whether the ledger holds the events' tally: no two lines have the same
/// name, every event's name has a line, and every line's amount is the sum
/// of the amounts of the events of its name.
pub open spec fn tallies(s: Seq<LootView>, events: Seq<LootView>) -> bool {
    &&& distinct_names(s)
    &&& forall|k: int|
        0 <= k < events.len() ==> index_of_name(s, (#[trigger] events[k]).name) < s.len()
    &&& forall|i: int|
        0 <= i < s.len() ==> (#[trigger] s[i]).amount == name_total(events, s[i].name)
}

/// With a catalogue that has an item for every name, every event finds its
/// line.
pub proof fn lemma_all_found<F: ItemFetcher>(
    fetcher: &F,
    s: Seq<LootView>,
    events: Seq<LootView>,
    found: Seq<Option<PricedItem>>,
)
    requires
        always_finds(fetcher),
        all_looked_up(fetcher, s, events, found),
    ensures
        all_found(s, events, found),
    decreases events.len(),
{
    if events.len() > 0 && found.len() == events.len() {
        lemma_all_found(fetcher, s, events.drop_last(), found.drop_last());
        let before = integrated_all(s, events.drop_last(), found.drop_last());
        if index_of_name(before, events.last().name) >= before.len() {
            let answer = choose|answer: Result<ItemView, FetchError>|
                #[trigger] fetcher.answers(events.last().name, answer) && found.last()
                    == priced_of(answer);
            assert(answer is Ok);
        }
    }
}

/// A line that has the name is found by the name.
pub proof fn lemma_has_line(s: Seq<LootView>, name: Seq<char>, j: int)
    requires
        0 <= j < s.len(),
        s[j].name == name,
    ensures
        index_of_name(s, name) <= j,
{
    lemma_index_of_name(s, name);
    if index_of_name(s, name) > j {
        assert(s[j].name != name);
    }
}

/// Events of other names add nothing to a name's sum.
pub proof fn lemma_name_total_none(events: Seq<LootView>, name: Seq<char>)
    requires
        forall|k: int| 0 <= k < events.len() ==> (#[trigger] events[k]).name != name,
    ensures
        name_total(events, name) == 0,
    decreases events.len(),
{
    if events.len() > 0 {
        let before = events.drop_last();
        assert(events[events.len() - 1].name != name);
        assert forall|k: int| 0 <= k < before.len() implies (#[trigger] before[k]).name
            != name by {
            assert(before[k] == events[k]);
        }
        lemma_name_total_none(before, name);
    }
}

/// Another amount in one line changes the sum by the difference.
pub proof fn lemma_total_update(s: Seq<LootView>, i: int, line: LootView)
    requires
        0 <= i < s.len(),
    ensures
        total(s.update(i, line)) + s[i].amount == total(s) + line.amount,
    decreases s.len(),
{
    let t = s.update(i, line);
    if i == s.len() - 1 {
        assert(t.drop_last() =~= s.drop_last());
    } else {
        assert(t.drop_last() =~= s.drop_last().update(i, line));
        assert(t.last() == s.last());
        lemma_total_update(s.drop_last(), i, line);
    }
}

/// Counting from an empty ledger: where every event finds its line, and no
/// name's amounts sum up beyond 64 bits, the ledger holds the events' tally,
/// and the sum of its lines' amounts is the sum of the events' amounts.
pub proof fn lemma_counted(events: Seq<LootView>, found: Seq<Option<PricedItem>>)
    requires
        found.len() == events.len(),
        all_found(Seq::empty(), events, found),
        forall|name: Seq<char>| #[trigger] name_total(events, name) <= u64::MAX,
    ensures
        tallies(integrated_all(Seq::empty(), events, found), events),
        total(integrated_all(Seq::empty(), events, found)) == total(events),
    decreases events.len(),
{
    let nothing = Seq::<LootView>::empty();
    let s = integrated_all(nothing, events, found);
    if events.len() > 0 {
        let before_events = events.drop_last();
        let before_found = found.drop_last();
        let ev = events.last();
        let sp = integrated_all(nothing, before_events, before_found);
        assert forall|name: Seq<char>| #[trigger]
            name_total(before_events, name) <= u64::MAX by {
            assert(name_total(events, name) <= u64::MAX);
        }
        lemma_counted(before_events, before_found);
        lemma_index_of_name(sp, ev.name);
        lemma_integrated_distinct(sp, ev, found.last());
        let i = index_of_name(sp, ev.name);
        assert(name_total(events, ev.name) <= u64::MAX);
        if i < sp.len() {
            assert(sp[i].amount == name_total(before_events, sp[i].name));
            assert(s == sp.update(i, credited(sp[i], ev)));
            lemma_total_update(sp, i, credited(sp[i], ev));
            assert forall|j: int| 0 <= j < s.len() implies (#[trigger] s[j]).amount == name_total(
                events,
                s[j].name,
            ) by {
                if j != i {
                    assert(sp[j].amount == name_total(before_events, sp[j].name));
                    if j < i {
                        assert(sp[j].name != sp[i].name);
                    } else {
                        assert(sp[i].name != sp[j].name);
                    }
                }
            }
            assert forall|k: int| 0 <= k < events.len() implies index_of_name(
                s,
                (#[trigger] events[k]).name,
            ) < s.len() by {
                let n = events[k].name;
                let at = if k < before_events.len() {
                    assert(before_events[k] == events[k]);
                    index_of_name(sp, n)
                } else {
                    i
                };
                lemma_index_of_name(sp, n);
                assert(s[at].name == n);
                lemma_has_line(s, n, at);
            }
        } else {
            assert(found.last() is Some);
            let line = opened(ev, found.last()->0);
            assert(s == sp.push(line));
            assert(s.drop_last() =~= sp);
            assert forall|k: int| 0 <= k < before_events.len() implies (
            #[trigger] before_events[k]).name != ev.name by {
                let n = before_events[k].name;
                lemma_index_of_name(sp, n);
                assert(sp[index_of_name(sp, n)].name == n);
            }
            lemma_name_total_none(before_events, ev.name);
            assert forall|j: int| 0 <= j < s.len() implies (#[trigger] s[j]).amount == name_total(
                events,
                s[j].name,
            ) by {
                if j < sp.len() {
                    assert(sp[j].amount == name_total(before_events, sp[j].name));
                    assert(sp[j].name != ev.name);
                }
            }
            assert forall|k: int| 0 <= k < events.len() implies index_of_name(
                s,
                (#[trigger] events[k]).name,
            ) < s.len() by {
                let n = events[k].name;
                let at = if k < before_events.len() {
                    assert(before_events[k] == events[k]);
                    index_of_name(sp, n)
                } else {
                    sp.len() as int
                };
                lemma_index_of_name(sp, n);
                assert(s[at].name == n);
                lemma_has_line(s, n, at);
            }
        }
    }
}

} // verus!
