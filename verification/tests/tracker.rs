use fan_bd::dispatch::{OcrChannel, Reassembler, SequenceCounter};
use fan_bd::error::Error;
use fan_bd::item_fetcher::{FetchError, ItemData, ItemFetcher};
use fan_bd::ledger::{item_of, Item, Ledger};
use fan_bd::loot::{LootData, LootDetectionMode};
use fan_bd::ocr::{OcrOutput, OcrOutputData};
use fan_bd::region::Rect;
use fan_bd::pipeline::deliver;
use fan_bd::resolver::{clean, pick, resolve, Hit, SIMILARITY_THRESHOLD};
use fan_bd::silver::Silver;
use fan_bd::tracker::{BlackDesertLootTracker, State};
use std::cell::RefCell;

/// A catalogue that knows every item but those named in `unknown`, and
/// keeps the names that it was asked for.
struct Catalogue {
    unknown: Vec<String>,
    asked: RefCell<Vec<String>>,
}

impl Catalogue {
    fn new(unknown: &[&str]) -> Self {
        Catalogue {
            unknown: unknown.iter().map(|s| s.to_string()).collect(),
            asked: RefCell::new(Vec::new()),
        }
    }
}

impl ItemFetcher for Catalogue {
    fn get_data_by_name(&self, item_name: &str) -> Result<ItemData, FetchError> {
        self.asked.borrow_mut().push(item_name.to_string());
        if self.unknown.iter().any(|u| u == item_name) {
            return Err(FetchError::NotFound);
        }
        Ok(ItemData {
            id: item_name.len() as u64,
            name: item_name.to_string(),
            vendor_buy_price: 10,
            vendor_sell_price: 5,
            market_buy_price: 0,
            market_sell_price: if item_name == "Black Stone" { 200 } else { 0 },
        })
    }
}

fn lines(v: &[&str]) -> Vec<String> {
    v.iter().map(|s| s.to_string()).collect()
}

fn table(t: &BlackDesertLootTracker) -> Vec<(String, u64)> {
    t.get_loot_data()
        .iter()
        .map(|d| (d.name.clone(), d.amount))
        .collect()
}

fn ev(name: &str, amount: u64) -> LootData {
    LootData {
        name: name.to_string(),
        amount,
        ..Default::default()
    }
}

#[test]
fn end_to_end_chat() {
    let catalogue = Catalogue::new(&[]);
    let mut tracker = BlackDesertLootTracker::new();
    tracker.set_detection_mode(LootDetectionMode::OCRChatLootViaStream);
    let n = tracker.insert(
        &catalogue,
        &lines(&["You have obtained [Black Stone]x7. (16:08)"]),
    );
    assert_eq!(n, 1);
    assert_eq!(table(&tracker), vec![("Black Stone".to_string(), 7)]);
    let n = tracker.insert(
        &catalogue,
        &lines(&[
            "You have obtained [Black Stone]x7. (16:08)",
            "You have obtained [Old Moon Ore]x2. (16:09)",
        ]),
    );
    assert_eq!(n, 1);
    assert_eq!(
        table(&tracker),
        vec![
            ("Black Stone".to_string(), 7),
            ("Old Moon Ore".to_string(), 2)
        ]
    );
    // the same snapshot once more brings nothing
    let n = tracker.insert(
        &catalogue,
        &lines(&[
            "You have obtained [Black Stone]x7. (16:08)",
            "You have obtained [Old Moon Ore]x2. (16:09)",
        ]),
    );
    assert_eq!(n, 0);
    assert_eq!(
        table(&tracker),
        vec![
            ("Black Stone".to_string(), 7),
            ("Old Moon Ore".to_string(), 2)
        ]
    );
    let black = &tracker.get_loot_data()[0];
    assert_eq!(black.price.value(), 200);
    assert_eq!(black.id, 11);
    assert_eq!((black.hour, black.minute), (16, 8));
    assert_eq!(black.calculate().value(), 1400);
    let ore = &tracker.get_loot_data()[1];
    assert_eq!(ore.price.value(), 5);
    assert_eq!(tracker.get_loot_history().len(), 2);
    // each name was looked up once, when its line was opened
    assert_eq!(
        *catalogue.asked.borrow(),
        vec!["Black Stone".to_string(), "Old Moon Ore".to_string()]
    );
}

#[test]
fn amounts_add_up() {
    let catalogue = Catalogue::new(&[]);
    let mut tracker = BlackDesertLootTracker::new();
    tracker.insert(
        &catalogue,
        &lines(&["You have obtained [Black Stone]x7. (16:08)"]),
    );
    tracker.insert(
        &catalogue,
        &lines(&[
            "You have obtained [Black Stone]x7. (16:08)",
            "You have obtained [Black Stone]x3. (16:10)",
        ]),
    );
    assert_eq!(table(&tracker), vec![("Black Stone".to_string(), 10)]);
    assert_eq!(tracker.get_loot_history().len(), 2);
}

#[test]
fn failed_lookup_is_counted_and_not_kept() {
    let catalogue = Catalogue::new(&["Old Moon Ore"]);
    let mut tracker = BlackDesertLootTracker::new();
    let n = tracker.insert(
        &catalogue,
        &lines(&[
            "You have obtained [Black Stone]x7. (16:08)",
            "You have obtained [Old Moon Ore]x2. (16:09)",
        ]),
    );
    assert_eq!(n, 2);
    assert_eq!(table(&tracker), vec![("Black Stone".to_string(), 7)]);
    assert_eq!(tracker.get_loot_history().len(), 2);
}

#[test]
fn lines_without_events() {
    let catalogue = Catalogue::new(&[]);
    let mut tracker = BlackDesertLootTracker::new();
    assert_eq!(tracker.insert(&catalogue, &lines(&["CRITICAL", ""])), 0);
    assert_eq!(tracker.insert(&catalogue, &Vec::new()), 0);
    assert!(tracker.get_loot_data().is_empty());
    assert!(catalogue.asked.borrow().is_empty());
}

#[test]
fn drop_log_flow() {
    let catalogue = Catalogue::new(&[]);
    let mut tracker = BlackDesertLootTracker::new();
    tracker.set_detection_mode(LootDetectionMode::OCRDropLogViaStream);
    assert_eq!(
        tracker.insert(&catalogue, &lines(&["Swamp Leaves x 2", "Silver x 111"])),
        2
    );
    // the panel shows the same lines still
    assert_eq!(
        tracker.insert(&catalogue, &lines(&["Swamp Leaves x 2", "Silver x 111"])),
        0
    );
    // the panel is empty, and then shows the same lines again: new loot
    assert_eq!(tracker.insert(&catalogue, &lines(&["CRITICAL"])), 0);
    assert_eq!(
        tracker.insert(&catalogue, &lines(&["Swamp Leaves x 2", "Silver x 111"])),
        2
    );
    assert_eq!(
        table(&tracker),
        vec![("Swamp Leaves".to_string(), 4), ("Silver".to_string(), 222)]
    );
}

#[test]
fn garbled_name_goes_to_its_line() {
    let catalogue = Catalogue::new(&[]);
    let mut tracker = BlackDesertLootTracker::new();
    tracker.set_detection_mode(LootDetectionMode::OCRDropLogViaStream);
    tracker.insert(&catalogue, &lines(&["Swamp Leaves x 2"]));
    tracker.insert(&catalogue, &lines(&["CRITICAL"]));
    assert_eq!(tracker.insert(&catalogue, &lines(&["SWarnp Leaves x 3"])), 1);
    assert_eq!(table(&tracker), vec![("Swamp Leaves".to_string(), 5)]);
    assert_eq!(*catalogue.asked.borrow(), vec!["Swamp Leaves".to_string()]);
}

#[test]
fn reset_empties_everything() {
    let catalogue = Catalogue::new(&[]);
    let mut tracker = BlackDesertLootTracker::new();
    let snapshot = lines(&["You have obtained [Black Stone]x7. (16:08)"]);
    assert_eq!(tracker.insert(&catalogue, &snapshot), 1);
    tracker.reset();
    assert!(tracker.get_loot_data().is_empty());
    assert!(tracker.get_loot_history().is_empty());
    // what was shown before the reset is new after it
    assert_eq!(tracker.insert(&catalogue, &snapshot), 1);
    assert_eq!(table(&tracker), vec![("Black Stone".to_string(), 7)]);
    tracker.reset();
    tracker.reset();
    assert!(tracker.get_loot_data().is_empty());
    assert!(matches!(
        tracker.detection_mode,
        LootDetectionMode::OCRChatLootViaStream
    ));
}

#[test]
fn mode_switch_empties_the_snapshot() {
    let catalogue = Catalogue::new(&[]);
    let mut tracker = BlackDesertLootTracker::new();
    let snapshot = lines(&["You have obtained [Black Stone]x7. (16:08)"]);
    assert_eq!(tracker.insert(&catalogue, &snapshot), 1);
    tracker.set_detection_mode(LootDetectionMode::OCRChatLootViaStream);
    assert_eq!(tracker.insert(&catalogue, &snapshot), 0);
    tracker.set_detection_mode(LootDetectionMode::OCRDropLogViaStream);
    tracker.set_detection_mode(LootDetectionMode::OCRChatLootViaStream);
    assert_eq!(tracker.insert(&catalogue, &snapshot), 1);
    assert_eq!(table(&tracker), vec![("Black Stone".to_string(), 14)]);
}

#[test]
fn tracker_state() {
    let mut tracker = BlackDesertLootTracker::new();
    assert_eq!(tracker.state(), State::Start);
    tracker.set_state(State::Pause);
    assert_eq!(tracker.state(), State::Pause);
    tracker.set_state(State::Continue);
    assert_eq!(tracker.state(), State::Continue);
}

fn output(texts: &[&str]) -> OcrOutput {
    OcrOutput {
        data: texts
            .iter()
            .map(|t| OcrOutputData {
                text: t.to_string(),
                area: Rect {
                    x: 0,
                    y: 0,
                    width: 1,
                    height: 1,
                },
            })
            .collect(),
    }
}

#[test]
fn process_data_tells_of_changes_only() {
    let catalogue = Catalogue::new(&["Old Moon Ore"]);
    let mut tracker = BlackDesertLootTracker::new();
    let failed = OcrChannel::from_result(0, Err(Error::OcrError("timeout".to_string())));
    assert!(failed.result.is_none());
    assert!(tracker.process_data(&catalogue, &failed).is_none());
    let first = OcrChannel::from_result(
        1,
        Ok(output(&["You have obtained [Black Stone]x7. (16:08)"])),
    );
    let update = tracker.process_data(&catalogue, &first).unwrap();
    assert_eq!(update.len(), 1);
    assert_eq!(update[0].name, "Black Stone");
    assert_eq!(update[0].amount, 7);
    // the same frame again: nothing new, nothing told
    assert!(tracker.process_data(&catalogue, &first).is_none());
    // a new event that the catalogue does not know: read, and nothing told
    let second = OcrChannel::from_result(
        2,
        Ok(output(&[
            "You have obtained [Black Stone]x7. (16:08)",
            "You have obtained [Old Moon Ore]x2. (16:09)",
        ])),
    );
    assert!(tracker.process_data(&catalogue, &second).is_none());
    assert_eq!(tracker.get_loot_history().len(), 2);
}

#[test]
fn dispatcher_ordering() {
    let mut r: Reassembler<u64> = Reassembler::new();
    let mut seen: Vec<u64> = Vec::new();
    let mut steps: Vec<Vec<u64>> = Vec::new();
    for index in [2u64, 0, 1, 3] {
        let out = r.accept(index, index * 10);
        seen.extend(out.iter().copied());
        steps.push(out);
    }
    assert_eq!(seen, vec![0, 10, 20, 30]);
    assert_eq!(steps, vec![vec![], vec![0], vec![10, 20], vec![30]]);
    assert_eq!(r.next_index(), 4);
    assert_eq!(r.pending_len(), 0);
}

#[test]
fn reassembler_holds_back_what_is_ahead() {
    let mut r: Reassembler<&str> = Reassembler::new();
    assert!(r.accept(3, "d").is_empty());
    assert!(r.accept(1, "b").is_empty());
    assert_eq!(r.pending_len(), 2);
    assert_eq!(r.next_index(), 0);
    assert_eq!(r.accept(0, "a"), vec!["a", "b"]);
    assert_eq!(r.next_index(), 2);
    assert_eq!(r.pending_len(), 1);
    assert_eq!(r.accept(2, "c"), vec!["c", "d"]);
    assert_eq!(r.next_index(), 4);
    // a number whose turn is over waits for good
    assert!(r.accept(1, "late").is_empty());
    assert_eq!(r.next_index(), 4);
    assert_eq!(r.pending_len(), 1);
}

#[test]
fn sequence_counter() {
    let mut c = SequenceCounter::new();
    assert_eq!(c.issue(), Some(0));
    assert_eq!(c.issue(), Some(1));
    assert_eq!(c.issue(), Some(2));
}

#[test]
fn ledger_lines() {
    let mut ledger = Ledger::new();
    assert!(ledger.is_empty());
    let silver = Item {
        id: 1,
        name: "Silver".to_string(),
        price: Silver::new(1),
    };
    assert!(ledger.integrate(&ev("Silver", 100), Some(silver)));
    assert!(!ledger.integrate(&ev("Gold", 1), None));
    assert!(ledger.integrate(&ev("Silver", 11), None));
    assert!(!ledger.integrate(&ev("Silver", 0), None));
    assert_eq!(ledger.len(), 1);
    assert_eq!(ledger.lines()[0].amount, 111);
    assert_eq!(ledger.lines()[0].id, 1);
    assert_eq!(ledger.find(&"Silver".to_string()), Some(0));
    assert_eq!(ledger.find(&"Gold".to_string()), None);
    // an item that is given for a name that has a line changes nothing of it
    let other = Item {
        id: 9,
        name: "Silver".to_string(),
        price: Silver::new(77),
    };
    assert!(ledger.integrate(&ev("Silver", 1), Some(other)));
    assert_eq!(ledger.lines()[0].id, 1);
    assert_eq!(ledger.lines()[0].price.value(), 1);
    assert_eq!(ledger.snapshot().len(), 1);
    // a full line stays full
    assert!(ledger.integrate(&ev("Silver", u64::MAX), None));
    assert_eq!(ledger.lines()[0].amount, u64::MAX);
    assert!(!ledger.integrate(&ev("Silver", 5), None));
    assert_eq!(ledger.lines()[0].amount, u64::MAX);
    ledger.clear();
    assert!(ledger.is_empty());
}

#[test]
fn price_of_an_item() {
    let data = ItemData {
        id: 3,
        name: "Ore".to_string(),
        vendor_buy_price: 9,
        vendor_sell_price: 4,
        market_buy_price: 70,
        market_sell_price: 60,
    };
    let item = item_of(Ok(data.clone())).unwrap();
    assert_eq!((item.id, item.name.as_str(), item.price.value()), (3, "Ore", 60));
    let item = item_of(Ok(ItemData {
        market_sell_price: 0,
        ..data
    }))
    .unwrap();
    assert_eq!(item.price.value(), 4);
    assert!(item_of(Err(FetchError::Transport)).is_none());
}

fn entries(names: &[&str]) -> Vec<LootData> {
    names.iter().map(|n| ev(n, 1)).collect()
}

#[test]
fn names_resolved() {
    let none: Vec<LootData> = Vec::new();
    assert_eq!(resolve(&"Silver".to_string(), &none), "Silver");
    let keys = entries(&["Black Stone", "Swamp Leaves", "Silver"]);
    // contained at the beginning or at the end, cleaned
    assert_eq!(resolve(&"Black".to_string(), &keys), "Black Stone");
    assert_eq!(resolve(&"Leaves".to_string(), &keys), "Swamp Leaves");
    assert_eq!(resolve(&"Black Stone.".to_string(), &keys), "Black Stone");
    // similar enough
    assert_eq!(resolve(&"Black-Stone!".to_string(), &keys), "Black Stone");
    assert_eq!(resolve(&"SWarnp Leaves".to_string(), &keys), "Swamp Leaves");
    assert_eq!(resolve(&"SILVER".to_string(), &keys), "Silver");
    assert_eq!(resolve(&"Si1ver".to_string(), &keys), "Silver");
    // not similar enough
    assert_eq!(resolve(&"Old Moon Ore".to_string(), &keys), "Old Moon Ore");
    // a name without a character that counts is contained in every key
    assert_eq!(resolve(&"--".to_string(), &keys), "Black Stone");
}

#[test]
fn containment_is_blind_to_case() {
    // too unlike to score, and contained but for the case
    let keys = entries(&["Black Stone Powder", "Rough Black Stone Powder"]);
    assert_eq!(resolve(&"BLACK STONE".to_string(), &keys), "Black Stone Powder");
    assert_eq!(resolve(&"stone POWDER".to_string(), &keys), "Black Stone Powder");
    assert_eq!(resolve(&"ROUGH".to_string(), &keys), "Rough Black Stone Powder");
    assert_eq!(resolve(&"STONE".to_string(), &keys), "STONE");
}

#[test]
fn first_of_the_best_keys_wins() {
    let keys = entries(&["Silvex", "Silvey"]);
    assert_eq!(resolve(&"Silvez".to_string(), &keys), "Silvex");
    // containment is taken at once, whatever scored before
    let keys = entries(&["Silvers", "Silver Ore"]);
    assert_eq!(resolve(&"Silver".to_string(), &keys), "Silvers");
    let keys = entries(&["Zilver Ore", "Silver Ore"]);
    assert_eq!(resolve(&"Silver Or".to_string(), &keys), "Silver Ore");
}

#[test]
fn similarity_threshold() {
    assert_eq!(SIMILARITY_THRESHOLD, 0x3FE3_3333_3333_3333);
    // three of five agree: six tenths, which is not above the threshold
    let keys = entries(&["Abcde"]);
    assert_eq!(resolve(&"Abcxy".to_string(), &keys), "Abcxy");
    // four of six agree: above the threshold
    let keys = entries(&["Abcdef"]);
    assert_eq!(resolve(&"Abcdxy".to_string(), &keys), "Abcdef");
    // nothing agrees
    let keys = entries(&["Abc"]);
    assert_eq!(resolve(&"Xyz".to_string(), &keys), "Xyz");
    assert_eq!(
        clean("Black-Stone! 2"),
        vec!['B', 'l', 'a', 'c', 'k', 'S', 't', 'o', 'n', 'e', ' ', '2']
    );
}

fn hit(contained: bool, score: u64) -> Hit {
    Hit { contained, score }
}

#[test]
fn picking_a_key() {
    let little = SIMILARITY_THRESHOLD;
    let more = SIMILARITY_THRESHOLD + 1;
    let most = 0x3FF0_0000_0000_0000;
    assert_eq!(pick(&vec![]), None);
    assert_eq!(pick(&vec![hit(false, 0), hit(false, little)]), None);
    assert_eq!(pick(&vec![hit(false, 0), hit(false, more)]), Some(1));
    // the first of the greatest
    assert_eq!(
        pick(&vec![hit(false, more), hit(false, most), hit(false, most)]),
        Some(1)
    );
    // a key that contains the name is taken, whatever the scores
    assert_eq!(
        pick(&vec![hit(false, most), hit(true, 0), hit(true, most)]),
        Some(1)
    );
}

fn frame(index: u64, texts: &[&str]) -> OcrChannel {
    OcrChannel::from_result(index, Ok(output(texts)))
}

#[test]
fn results_reach_the_ledger_in_the_order_of_the_frames() {
    let catalogue = Catalogue::new(&[]);
    let mut tracker = BlackDesertLootTracker::new();
    let mut buffer: Reassembler<OcrChannel> = Reassembler::new();
    let one = "You have obtained [Black Stone]x7. (16:08)";
    let two = "You have obtained [Old Moon Ore]x2. (16:09)";
    let three = "You have obtained [Black Stone]x1. (16:10)";
    // frame 2 is ahead of its turn
    let told = deliver(&mut buffer, &mut tracker, &catalogue, frame(2, &[one, two, three]));
    assert!(told.is_empty());
    assert!(tracker.get_loot_data().is_empty());
    // frame 1 failed, and is ahead of its turn too
    let failed = OcrChannel::from_result(1, Err(Error::OcrError("timeout".to_string())));
    let told = deliver(&mut buffer, &mut tracker, &catalogue, failed);
    assert!(told.is_empty());
    assert_eq!(buffer.pending_len(), 2);
    // frame 0 comes in: 0, 1 and 2 are taken, in this order
    let told = deliver(&mut buffer, &mut tracker, &catalogue, frame(0, &[one]));
    assert_eq!(buffer.next_index(), 3);
    assert_eq!(buffer.pending_len(), 0);
    let told: Vec<Vec<(String, u64)>> = told
        .iter()
        .map(|t| t.iter().map(|d| (d.name.clone(), d.amount)).collect())
        .collect();
    assert_eq!(
        told,
        vec![
            vec![("Black Stone".to_string(), 7)],
            vec![
                ("Black Stone".to_string(), 8),
                ("Old Moon Ore".to_string(), 2)
            ],
        ]
    );
    assert_eq!(
        table(&tracker),
        vec![
            ("Black Stone".to_string(), 8),
            ("Old Moon Ore".to_string(), 2)
        ]
    );
    // the same frame again, in its turn: nothing new, nobody is told
    let told = deliver(&mut buffer, &mut tracker, &catalogue, frame(3, &[one, two, three]));
    assert!(told.is_empty());
    assert_eq!(buffer.next_index(), 4);
}

#[test]
fn after_reset_as_new() {
    let catalogue = Catalogue::new(&[]);
    let snapshot = lines(&[
        "You have obtained [Black Stone]x7. (16:08)",
        "noise",
        "You have obtained [Old Moon Ore]x2. (16:09)",
        "You have obtained [Black Stone]x3. (16:10)",
    ]);
    let mut used = BlackDesertLootTracker::new();
    used.insert(
        &catalogue,
        &lines(&[
            "You have obtained [Silver]x500. (16:00)",
            "You have obtained [Black Stone]x7. (16:08)",
        ]),
    );
    used.reset();
    let mut fresh = BlackDesertLootTracker::new();
    // every event that the lines give is counted
    assert_eq!(used.insert(&catalogue, &snapshot), 3);
    assert_eq!(fresh.insert(&catalogue, &snapshot), 3);
    assert_eq!(table(&used), table(&fresh));
    assert_eq!(
        table(&used),
        vec![
            ("Black Stone".to_string(), 10),
            ("Old Moon Ore".to_string(), 2)
        ]
    );
    // the amounts of the ledger sum up to the amounts of the events
    let sum: u64 = used.get_loot_data().iter().map(|d| d.amount).sum();
    assert_eq!(sum, 7 + 2 + 3);
    assert_eq!(used.get_loot_history().len(), 3);
}
