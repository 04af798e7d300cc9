//! The loot tracker: it reads the lines of one snapshot after the other,
//! finds the events that are new, and adds them to the ledger.

use crate::diff::{diff, lemma_diff_from_nothing, LootDatas};
use crate::dispatch::OcrChannel;
use crate::item_fetcher::ItemFetcher;
use crate::ledger::{
    all_looked_up, always_finds, grows_from, integrated, integrated_all, item_of, item_view, keys, lemma_all_found,
    lemma_counted, lemma_integrated_all_grows, lemma_priced, looked_up, name_total, priced_of, tallies, total, Item, Ledger, PricedItem,
};
use crate::loot::{views, LootData, LootDetectionMode, LootView};
use crate::parser::{parse_all, texts};
use crate::region::{
    areas_fit, default_area, detections, envelope, find_envelope, loot_fits,
    AnalyzeCaptureAreaInput, OCRViaStreamConfig, Rect, CHAT_FPS_MILLI,
};
use crate::resolver::resolved;
use vstd::prelude::*;

verus! {

/// Whether the tracker is at work.
#[derive(Clone, Copy, Debug, PartialEq, Eq, Structural)]
pub enum State {
    Start,
    Pause,
    Continue,
}

/// The loot tracker: the ledger, the last snapshot that brought something
/// new, and every new event so far.
pub struct BlackDesertLootTracker {
    loot_table: Ledger,
    loot_history: Vec<LootData>,
    loot_entry_tracker: Vec<LootData>,
    /// The log that is read.
    pub detection_mode: LootDetectionMode,
    state: State,
}

/// The events with the names that the ledger has for them.
pub open spec fn renamed(keys: Seq<Seq<char>>, events: Seq<LootView>) -> Seq<LootView> {
    events.map_values(|e: LootView| LootView { name: resolved(keys, e.name), ..e })
}

/// The events that the lines give, under the ledger's names.
pub open spec fn read_events(
    mode: LootDetectionMode,
    keys: Seq<Seq<char>>,
    lines: Seq<Seq<char>>,
) -> Seq<LootView> {
    renamed(keys, parse_all(mode, lines))
}

/// The events of the lines that are new against the snapshot `shown`.
pub open spec fn fresh_events(
    mode: LootDetectionMode,
    shown: Seq<LootView>,
    keys: Seq<Seq<char>>,
    lines: Seq<Seq<char>>,
) -> Seq<LootView> {
    diff(shown, read_events(mode, keys, lines))
}

/// The snapshot to set the next lines against. Lines that bring something
/// new take the place of `shown`. Lines that give events but nothing new
/// leave it. Lines that give no event leave it for the chat, and empty it
/// for the drop log, whose panel is then empty.
pub open spec fn next_shown(
    mode: LootDetectionMode,
    shown: Seq<LootView>,
    keys: Seq<Seq<char>>,
    lines: Seq<Seq<char>>,
) -> Seq<LootView> {
    let read = read_events(mode, keys, lines);
    if read.len() == 0 {
        match mode {
            LootDetectionMode::OCRDropLogViaStream => Seq::empty(),
            LootDetectionMode::OCRChatLootViaStream => shown,
        }
    } else if diff(shown, read).len() == 0 {
        shown
    } else {
        read
    }
}

/// After a reset, the first lines are all new: set against no snapshot,
/// every event that the lines give is new.
pub proof fn lemma_fresh_after_reset(
    mode: LootDetectionMode,
    keys: Seq<Seq<char>>,
    lines: Seq<Seq<char>>,
)
    ensures
        fresh_events(mode, Seq::empty(), keys, lines) == read_events(mode, keys, lines),
{
    lemma_diff_from_nothing(read_events(mode, keys, lines));
}

/// Growing is passed on: what has grown from a ledger that has grown from
/// another has grown from that one.
pub proof fn lemma_grows_on(a: Seq<LootView>, b: Seq<LootView>, c: Seq<LootView>)
    requires
        grows_from(a, b),
        grows_from(b, c),
    ensures
        grows_from(a, c),
{
    assert forall|i: int| 0 <= i < a.len() implies (#[trigger] c[i]).amount >= a[i].amount && c[i]
        == (LootView { amount: c[i].amount, ..a[i] }) by {
        assert(b[i].amount >= a[i].amount);
        assert(c[i].amount >= b[i].amount);
    }
}

/// A ledger that has grown and is back where it was has not grown at all:
/// there is no way back.
pub proof fn lemma_grows_back(a: Seq<LootView>, b: Seq<LootView>)
    requires
        grows_from(a, b),
        grows_from(b, a),
    ensures
        a == b,
{
    assert forall|i: int| 0 <= i < a.len() implies a[i] == b[i] by {
        assert(b[i].amount >= a[i].amount);
        assert(a[i].amount >= b[i].amount);
    }
    assert(a =~= b);
}

impl BlackDesertLootTracker {
    /// The ledger's lines.
    pub closed spec fn table(&self) -> Seq<LootView> {
        self.loot_table@
    }

    /// Every new event so far.
    pub closed spec fn history(&self) -> Seq<LootView> {
        views(self.loot_history@)
    }

    /// The snapshot that the next lines are set against.
    pub closed spec fn shown(&self) -> Seq<LootView> {
        views(self.loot_entry_tracker@)
    }

    /// The log that is read.
    pub closed spec fn mode(&self) -> LootDetectionMode {
        self.detection_mode
    }

    /// Whether the tracker is at work.
    pub closed spec fn spec_state(&self) -> State {
        self.state
    }

    /// What `insert` does with the lines, from the tracker before to the
    /// tracker after and the count. The new events are those of the lines
    /// against the snapshot shown before, under the ledger's names of before.
    /// They are added to the history, and counted in 16 bits. Each is taken
    /// into the ledger in turn, with what the catalogue answered when asked
    /// for its name, where its name had no line. The ledger only grows.
    pub open spec fn inserted<F: ItemFetcher>(before: Self, after: Self, fetcher: &F, lines: Seq<Seq<char>>, count: u16) -> bool {
        let fresh = fresh_events(before.mode(), before.shown(), keys(before.table()), lines);
        &&& after.mode() == before.mode()
        &&& after.spec_state() == before.spec_state()
        &&& after.shown() == next_shown(before.mode(), before.shown(), keys(before.table()), lines)
        &&& after.history() == before.history() + fresh
        &&& count == fresh.len() % 0x1_0000
        &&& exists|found: Seq<Option<PricedItem>>|
            found.len() == fresh.len() && all_looked_up(fetcher, before.table(), fresh, found)
                && after.table() == #[trigger] integrated_all(
                before.table(), fresh, found,
            )
        &&&
        grows_from(before.table(), after.table())
    }

    /// A tracker with an empty ledger, that has seen nothing, for the chat.
    pub fn new() -> (tracker: Self)
        ensures
            tracker.table() == Seq::<LootView>::empty(),
            tracker.history() == Seq::<LootView>::empty(),
            tracker.shown() == Seq::<LootView>::empty(),
            tracker.mode() == LootDetectionMode::OCRChatLootViaStream,
            tracker.spec_state() == State::Start,
    {
        let tracker = BlackDesertLootTracker {
            loot_table: Ledger::new(),
            loot_history: Vec::new(),
            loot_entry_tracker: Vec::new(),
            detection_mode: LootDetectionMode::OCRChatLootViaStream,
            state: State::Start,
        };
        assert(views(tracker.loot_history@) =~= Seq::<LootView>::empty());
        assert(views(tracker.loot_entry_tracker@) =~= Seq::<LootView>::empty());
        tracker
    }

    /// Sets whether the tracker is at work.
    pub fn set_state(&mut self, state: State)
        ensures
            final(self).spec_state() == state,
            final(self).table() == old(self).table(),
            final(self).history() == old(self).history(),
            final(self).shown() == old(self).shown(),
            final(self).mode() == old(self).mode(),
    {
        self.state = state
    }

    /// Turns to one of the logs. A change of the log empties the snapshot,
    /// which was read in the other log; the ledger and the history stay.
    pub fn set_detection_mode(&mut self, mode: LootDetectionMode)
        ensures
            final(self).mode() == mode,
            final(self).shown() == if mode == old(self).mode() {
                old(self).shown()
            } else {
                Seq::empty()
            },
            final(self).table() == old(self).table(),
            final(self).history() == old(self).history(),
            final(self).spec_state() == old(self).spec_state(),
    {
        if mode != self.detection_mode {
            self.loot_entry_tracker = Vec::new();
            assert(views(self.loot_entry_tracker@) =~= Seq::<LootView>::empty());
        }
        self.detection_mode = mode;
    }

    /// Whether the tracker is at work.
    pub fn state(&self) -> (state: State)
        ensures
            state == self.spec_state(),
    {
        self.state
    }

    /// The ledger's lines, in the order in which they were opened.
    pub fn get_loot_data(&self) -> (lines: &Vec<LootData>)
        ensures
            views(lines@) == self.table(),
    {
        self.loot_table.lines()
    }

    /// A copy of every new event so far.
    pub fn get_loot_history(&self) -> (events: Vec<LootData>)
        ensures
            views(events@) == self.history(),
    {
        crate::loot::copy_all(&self.loot_history)
    }

    /// Empties the ledger, the history and the snapshot, all three. The
    /// tracker is then as one that has seen nothing.
    pub fn reset(&mut self)
        ensures
            final(self).table() == Seq::<LootView>::empty(),
            final(self).history() == Seq::<LootView>::empty(),
            final(self).shown() == Seq::<LootView>::empty(),
            final(self).mode() == old(self).mode(),
            final(self).spec_state() == old(self).spec_state(),
    {
        self.loot_entry_tracker = Vec::new();
        self.loot_history = Vec::new();
        self.loot_table.clear();
        assert(views(self.loot_history@) =~= Seq::<LootView>::empty());
        assert(views(self.loot_entry_tracker@) =~= Seq::<LootView>::empty());
    }

    /// Asks the catalogue for the item of that name; gives the item of its answer, or none.
    fn find_loot_metadata<F: ItemFetcher>(fetcher: &F, s: &String) -> (r: Option<Item>)
        ensures
            exists|answer: Result<crate::item_fetcher::ItemView, crate::item_fetcher::FetchError>|
                #[trigger] fetcher.answers(s@, answer) && item_view(r) == priced_of(answer),
    {
        let answer = fetcher.get_data_by_name(s.as_str());
        proof {
            lemma_priced(answer);
            assert(fetcher.answers(s@, crate::item_fetcher::answer_view(answer)));
        }
        item_of(answer)
    }

    /// The events of `events` under the ledger's names.
    fn rename(&self, events: &Vec<LootData>) -> (r: Vec<LootData>)
        ensures
            views(r@) == renamed(keys(self.table()), views(events@)),
    {
        let mut r: Vec<LootData> = Vec::new();
        let mut i: usize = 0;
        while i < events.len()
            invariant
                i <= events.len(),
                r@.len() == i,
                forall|j: int|
                    0 <= j < i ==> (#[trigger] r@[j])@ == (LootView {
                        name: resolved(keys(self.table()), events@[j]@.name),
                        ..events@[j]@
                    }),
            decreases events.len() - i,
        {
            let v = &events[i];
            let name = self.loot_table.resolve(&v.name);
            r.push(
                LootData {
                    id: v.id,
                    name,
                    amount: v.amount,
                    price: v.price,
                    hour: v.hour,
                    minute: v.minute,
                },
            );
            i += 1;
        }
        assert(views(r@) =~= renamed(keys(self.table()), views(events@)));
        r
    }

    /// Takes the new events into the history and the ledger.
    fn integrate_all<F: ItemFetcher>(&mut self, fetcher: &F, fresh: &Vec<LootData>) -> (changed:
        bool)
        ensures
            final(self).mode() == old(self).mode(),
            final(self).spec_state() == old(self).spec_state(),
            final(self).shown() == old(self).shown(),
            final(self).history() == old(self).history() + views(fresh@),
            exists|found: Seq<Option<PricedItem>>|
                found.len() == fresh@.len() && all_looked_up(
                    fetcher,
                    old(self).table(),
                    views(fresh@),
                    found,
                ) && final(self).table() == #[trigger] integrated_all(
                    old(self).table(),
                    views(fresh@),
                    found,
                ),
            grows_from(old(self).table(), final(self).table()),
            changed == (final(self).table() != old(self).table()),
    {
        let ghost table0 = self.table();
        let ghost history0 = self.history();
        let ghost events = views(fresh@);
        let ghost mut found: Seq<Option<PricedItem>> = Seq::empty();
        let mut changed = false;
        let mut i: usize = 0;
        proof {
            assert(events.take(0) =~= Seq::<LootView>::empty());
            assert(history0 + events.take(0) =~= history0);
        }
        while i < fresh.len()
            invariant
                i <= fresh.len(),
                events == views(fresh@),
                events.len() == fresh@.len(),
                self.mode() == old(self).mode(),
                self.spec_state() == old(self).spec_state(),
                self.shown() == old(self).shown(),
                table0 == old(self).table(),
                history0 == old(self).history(),
                found.len() == i,
                all_looked_up(fetcher, table0, events.take(i as int), found),
                self.table() == integrated_all(table0, events.take(i as int), found),
                self.history() == history0 + events.take(i as int),
                grows_from(table0, self.table()),
                changed == (self.table() != table0),
            decreases fresh.len() - i,
        {
            let v = &fresh[i];
            let ghost table_i = self.table();
            let ghost history_i = views(self.loot_history@);
            assert(events[i as int] == v@);
            let copy = v.clone();
            self.loot_history.push(copy);
            let meta = match self.loot_table.find(&v.name) {
                Some(_) => None,
                None => Self::find_loot_metadata(fetcher, &v.name),
            };
            let ghost m = item_view(meta);
            assert(looked_up(fetcher, table_i, v@, m));
            let step = self.loot_table.integrate(v, meta);
            proof {
                let now = events.take(i + 1);
                assert(now.drop_last() =~= events.take(i as int));
                assert(now.last() == v@);
                assert(found.push(m).drop_last() =~= found);
                assert(found.push(m).last() == m);
                found = found.push(m);
                assert(self.table() == integrated(table_i, v@, m));
                assert(views(self.loot_history@) =~= history_i + seq![v@]);
                assert(self.history() =~= history0 + now);
                lemma_grows_on(table0, table_i, self.table());
                if self.table() == table0 {
                    lemma_grows_back(table0, table_i);
                }
            }
            changed = changed || step;
            i += 1;
        }
        proof {
            assert(events.take(events.len() as int) =~= events);
        }
        changed
    }

    /// Reads the lines of one snapshot, and tells whether the ledger is
    /// another than before.
    fn insert_and_tell<F: ItemFetcher>(&mut self, fetcher: &F, new_entry: &Vec<String>) -> (r: (
        u16,
        bool,
    ))
        ensures
            Self::inserted(*old(self), *final(self), fetcher, texts(new_entry@), r.0),
            r.1 == (final(self).table() != old(self).table()),
    {
        let ghost table0 = self.table();
        let ghost lines = texts(new_entry@);
        let ghost fresh_spec = fresh_events(self.mode(), self.shown(), keys(table0), lines);
        proof {
            lemma_integrated_all_grows(
                table0,
                Seq::<LootView>::empty(),
                Seq::<Option<PricedItem>>::empty(),
            );
            assert(table0 == integrated_all(
                table0,
                Seq::<LootView>::empty(),
                Seq::<Option<PricedItem>>::empty(),
            ));
            crate::diff::lemma_diff_is_suffix(
                self.shown(),
                read_events(self.mode(), keys(table0), lines),
            );
        }
        let parsed = Self::multiple_parse_loot(self.detection_mode, new_entry);
        if parsed.len() == 0 {
            match self.detection_mode {
                LootDetectionMode::OCRDropLogViaStream => {
                    self.loot_entry_tracker = Vec::new();
                    assert(views(self.loot_entry_tracker@) =~= Seq::<LootView>::empty());
                },
                LootDetectionMode::OCRChatLootViaStream => {},
            }
            proof {
                assert(fresh_spec =~= Seq::<LootView>::empty());
                assert(self.history() =~= old(self).history() + fresh_spec);
            }
            return (0, false);
        }
        let new_loot_data_entry = self.rename(&parsed);
        let diff_loot_data = LootDatas::diff(
            self.loot_entry_tracker.as_slice(),
            new_loot_data_entry.as_slice(),
        );
        assert(views(diff_loot_data@) == fresh_spec);
        if diff_loot_data.len() == 0 {
            proof {
                assert(fresh_spec =~= Seq::<LootView>::empty());
                assert(self.history() =~= old(self).history() + fresh_spec);
            }
            return (0, false);
        }
        self.loot_entry_tracker = new_loot_data_entry;
        let changed = self.integrate_all(fetcher, &diff_loot_data);
        ((diff_loot_data.len() % 0x1_0000) as u16, changed)
    }

    /// Reads the lines of one snapshot: finds the events that are new, adds
    /// them to the history, takes them into the ledger, and tells how many
    /// they are. An event whose name has no line in the ledger is looked up
    /// in the catalogue; if the catalogue gives nothing, the event is counted
    /// and leaves the ledger as it is.
    pub fn insert<F: ItemFetcher>(&mut self, fetcher: &F, new_entry: &Vec<String>) -> (count: u16)
        ensures
            Self::inserted(*old(self), *final(self), fetcher, texts(new_entry@), count),
    {
        self.insert_and_tell(fetcher, new_entry).0
    }

    /// Takes one frame's result in its turn. A frame whose recognition
    /// failed leaves the tracker as it is. Else the recognised texts are read
    /// as `insert` reads them. The ledger's lines are given back where the
    /// ledger is another than before: they are what observers are then told.
    pub fn process_data<F: ItemFetcher>(&mut self, fetcher: &F, input: &OcrChannel) -> (update:
        Option<Vec<LootData>>)
        ensures
            match input.result {
                None => *final(self) == *old(self),
                Some(output) => exists|count: u16|
                    Self::inserted(
                        *old(self),
                        *final(self),
                        fetcher,
                        crate::ocr::output_texts(output.data@),
                        count,
                    ),
            },
            update is Some == (final(self).table() != old(self).table()),
            update is Some ==> views(update->0@) == final(self).table(),
    {
        match &input.result {
            None => None,
            Some(output) => {
                let lines = output.texts();
                let r = self.insert_and_tell(fetcher, &lines);
                assert(Self::inserted(
                    *old(self),
                    *self,
                    fetcher,
                    crate::ocr::output_texts(output.data@),
                    r.0,
                ));
                if r.1 {
                    Some(self.loot_table.snapshot())
                } else {
                    None
                }
            },
        }
    }

    /// How to capture after a first reading, from what was read: the least
    /// rectangle that holds every line of loot, or the default rectangle if
    /// there was none; at the chat's frame rate.
    pub fn analyze(&self, input: &Vec<AnalyzeCaptureAreaInput>) -> (config: OCRViaStreamConfig)
        requires
            loot_fits(self.mode(), detections(input@)),
        ensures
            config.stream_fps_milli == CHAT_FPS_MILLI,
            config.capture_area == match envelope(self.mode(), detections(input@)) {
                Some(area) => area,
                None => default_area(),
            },
    {
        let capture_area = match find_envelope(self.detection_mode, input) {
            Some(area) => area,
            None => Rect { x: 1000, y: 400, width: 920, height: 640 },
        };
        OCRViaStreamConfig { capture_area, stream_fps_milli: CHAT_FPS_MILLI }
    }

    /// How to capture after a first reading, where the areas of the lines of
    /// loot fit the screen's coordinates, and else nothing.
    pub fn try_analyze(&self, input: &Vec<AnalyzeCaptureAreaInput>) -> (config: Option<
        OCRViaStreamConfig,
    >)
        ensures
            config is Some == loot_fits(self.mode(), detections(input@)),
            config is Some ==> config->0.stream_fps_milli == CHAT_FPS_MILLI,
            config is Some ==> config->0.capture_area == match envelope(
                self.mode(),
                detections(input@),
            ) {
                Some(area) => area,
                None => default_area(),
            },
    {
        if areas_fit(self.detection_mode, input) {
            Some(self.analyze(input))
        } else {
            None
        }
    }
}

/// What `insert` does depends on the tracker's ledger, history, snapshot,
/// mode and state alone: two trackers that agree in these go on alike. So a
/// tracker after a reset goes on as a new one that is in its mode and state.
pub proof fn lemma_inserted_by_state<F: ItemFetcher>(
    a: BlackDesertLootTracker,
    b: BlackDesertLootTracker,
    after: BlackDesertLootTracker,
    fetcher: &F,
    lines: Seq<Seq<char>>,
    count: u16,
)
    requires
        a.table() == b.table(),
        a.history() == b.history(),
        a.shown() == b.shown(),
        a.mode() == b.mode(),
        a.spec_state() == b.spec_state(),
    ensures
        BlackDesertLootTracker::inserted(a, after, fetcher, lines, count)
            == BlackDesertLootTracker::inserted(b, after, fetcher, lines, count),
{
}

/// With no line in the ledger, every event keeps its name.
pub proof fn lemma_read_without_keys(mode: LootDetectionMode, lines: Seq<Seq<char>>)
    ensures
        read_events(mode, Seq::empty(), lines) == parse_all(mode, lines),
{
    let parsed = parse_all(mode, lines);
    let keys = Seq::<Seq<char>>::empty();
    assert forall|i: int| 0 <= i < parsed.len() implies #[trigger] renamed(keys, parsed)[i]
        == parsed[i] by {
        crate::resolver::lemma_resolved_new(keys, parsed[i].name);
    }
    assert(renamed(keys, parsed) =~= parsed);
}

/// The first `insert` after a reset, or on a new tracker. Every event that
/// the lines give is new: it is counted, in 16 bits, and the events are the
/// history and the snapshot. The ledger is the events taken in one after the
/// other from nothing, each with what the catalogue answered for its name.
/// With a catalogue that has an item for every name, and no name's amounts
/// summing up beyond 64 bits, the ledger holds the events' tally, and the sum
/// of its amounts is the sum of the events' amounts.
pub proof fn lemma_insert_after_reset<F: ItemFetcher>(
    before: BlackDesertLootTracker,
    after: BlackDesertLootTracker,
    fetcher: &F,
    lines: Seq<Seq<char>>,
    count: u16,
)
    requires
        before.table() == Seq::<LootView>::empty(),
        before.history() == Seq::<LootView>::empty(),
        before.shown() == Seq::<LootView>::empty(),
        BlackDesertLootTracker::inserted(before, after, fetcher, lines, count),
    ensures
        ({
            let parsed = parse_all(before.mode(), lines);
            &&& count == parsed.len() % 0x1_0000
            &&& parsed.len() < 0x1_0000 ==> count == parsed.len()
            &&& after.history() == parsed
            &&& after.shown() == parsed
            &&& exists|found: Seq<Option<PricedItem>>|
                found.len() == parsed.len() && all_looked_up(
                    fetcher,
                    Seq::empty(),
                    parsed,
                    found,
                ) && after.table() == #[trigger] integrated_all(Seq::empty(), parsed, found)
            &&& always_finds(fetcher) && (forall|name: Seq<char>| #[trigger]
                name_total(parsed, name) <= u64::MAX) ==> tallies(after.table(), parsed) && total(
                after.table(),
            ) == total(parsed)
        }),
{
    let mode = before.mode();
    let parsed = parse_all(mode, lines);
    let nothing = Seq::<LootView>::empty();
    assert(keys(nothing) =~= Seq::<Seq<char>>::empty());
    lemma_read_without_keys(mode, lines);
    lemma_diff_from_nothing(parsed);
    let fresh = fresh_events(mode, nothing, keys(nothing), lines);
    assert(fresh == parsed);
    assert(nothing + parsed =~= parsed);
    if parsed.len() == 0 {
        assert(parsed =~= nothing);
    }
    let found = choose|found: Seq<Option<PricedItem>>|
        found.len() == fresh.len() && all_looked_up(fetcher, nothing, fresh, found)
            && after.table() == #[trigger] integrated_all(nothing, fresh, found);
    if always_finds(fetcher) && (forall|name: Seq<char>| #[trigger]
        name_total(parsed, name) <= u64::MAX) {
        lemma_all_found(fetcher, nothing, parsed, found);
        lemma_counted(parsed, found);
    }
}

} // verus!
