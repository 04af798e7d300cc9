use fan_bd::error::Error;
use fan_bd::item_fetcher::{
    BdolyticsSearchResult, BdolyticsSearchResultData, FetchError, ItemData, Status, Trade,
};
use fan_bd::loot::{copy_all, LootData, LootDetectionMode};
use fan_bd::ocr::{sanitize, OcrInput, OcrOutput, OcrOutputData};
use fan_bd::region::{
    all_areas_fit, areas_fit, bound, find_envelope, matched_areas, AnalyzeCaptureAreaInput,
    DropLogPanel, GameScreen, Rect, Screen, ScreenConfig, CHAT_FPS_MILLI, DROP_LOG_FPS_MILLI,
};
use fan_bd::session::CoreStatus;
use fan_bd::silver::{product, Silver};
use fan_bd::tracker::BlackDesertLootTracker;

#[test]
fn add_silver() {
    let mut a = Silver::new(1);
    let b = Silver::new(2);
    a += b;
    assert_eq!(a.value(), 3);
}

#[test]
fn silver_sums_and_products() {
    assert_eq!((Silver::new(4) + Silver::new(5)).value(), 9);
    assert_eq!((Silver::new(4) * Silver::new(5)).value(), 20);
    assert_eq!((7u64 * Silver::new(6)).value(), 42);
    assert_eq!(Silver::default().value(), 0);
    // beyond 64 bits the amount stays at the largest
    assert_eq!((Silver::new(u64::MAX) + Silver::new(1)).value(), u64::MAX);
    assert_eq!((Silver::new(u64::MAX) * Silver::new(2)).value(), u64::MAX);
    assert_eq!((3u64 * Silver::new(u64::MAX / 2)).value(), u64::MAX);
    let mut a = Silver::new(u64::MAX - 1);
    a += Silver::new(5);
    assert_eq!(a.value(), u64::MAX);
    assert_eq!(product(1 << 32, 1 << 32), u64::MAX);
    assert_eq!(product(1 << 32, (1 << 32) - 1), 0xFFFF_FFFF_0000_0000);
    assert_eq!(product(0, u64::MAX), 0);
}

#[test]
fn loot_worth() {
    let d = LootData {
        name: "Black Stone".to_string(),
        amount: 7,
        price: Silver::new(200),
        ..Default::default()
    };
    assert_eq!(d.calculate().value(), 1400);
    let d = LootData {
        amount: u64::MAX,
        price: Silver::new(2),
        ..Default::default()
    };
    assert_eq!(d.calculate().value(), u64::MAX);
    let none = LootData::default();
    assert_eq!(
        (none.id, none.name.as_str(), none.amount, none.price.value(), none.hour, none.minute),
        (0, "", 0, 0, 0, 0)
    );
    let copies = copy_all(&vec![d.clone(), none.clone()]);
    assert_eq!(copies.len(), 2);
    assert_eq!(copies[0].amount, u64::MAX);
    assert_eq!(copies[1].name, "");
}

#[test]
fn error_in_words() {
    assert_eq!(
        Error::CapturerError("target not found".to_string()).message(),
        "Capturer Error: target not found"
    );
    assert_eq!(Error::OcrError("timeout".to_string()).message(), "OCR Error: timeout");
    assert_eq!(Error::ImageError("".to_string()).message(), "Image Error: ");
}

fn hit(id: u64, name: &str, grade: Option<i64>, kind: &str) -> BdolyticsSearchResultData {
    BdolyticsSearchResultData {
        id,
        name: name.to_string(),
        grade_type: grade,
        db_type: kind.to_string(),
    }
}

fn search(success: bool, data: Vec<BdolyticsSearchResultData>) -> BdolyticsSearchResult {
    BdolyticsSearchResult {
        data,
        status: Status { success },
    }
}

#[test]
fn search_settles_on_an_id() {
    // the least id, where its grade is 0
    let r = search(
        true,
        vec![
            hit(30, "Caphras Stone", Some(0), "item"),
            hit(10, "Caphras Stone", Some(0), "item"),
            hit(20, "Caphras Stone", Some(2), "item"),
            hit(5, "Caphras Stone Bundle", Some(0), "item"),
            hit(1, "Caphras Stone", Some(0), "quest"),
        ],
    );
    assert_eq!(r.select_id("Caphras Stone"), Ok(10));
    // the greatest id, where the grade of the least is not 0
    let r = search(
        true,
        vec![
            hit(30, "Narc Magic Mark", Some(0), "item"),
            hit(10, "Narc Magic Mark", Some(3), "item"),
            hit(20, "Narc Magic Mark", Some(0), "item"),
        ],
    );
    assert_eq!(r.select_id("Narc Magic Mark"), Ok(30));
    // of two hits with the least id, the first decides
    let r = search(
        true,
        vec![
            hit(10, "Ore", Some(0), "item"),
            hit(10, "Ore", Some(1), "item"),
            hit(40, "Ore", Some(1), "item"),
        ],
    );
    assert_eq!(r.select_id("Ore"), Ok(10));
}

#[test]
fn search_that_fails() {
    let r = search(false, vec![hit(10, "Ore", Some(0), "item")]);
    assert_eq!(r.select_id("Ore"), Err(FetchError::Unsuccessful));
    let r = search(true, vec![hit(10, "Ore", Some(0), "item")]);
    assert_eq!(r.select_id("ore"), Err(FetchError::NotFound));
    let r = search(true, vec![]);
    assert_eq!(r.select_id("Ore"), Err(FetchError::NotFound));
    let r = search(true, vec![hit(10, "Ore", None, "item"), hit(11, "Ore", Some(0), "item")]);
    assert_eq!(r.select_id("Ore"), Err(FetchError::NoGrade));
}

#[test]
fn item_from_detail_and_market() {
    let item = ItemData::from_detail(7, "Black Stone", 100, 40);
    assert_eq!(
        (
            item.id,
            item.name.as_str(),
            item.vendor_buy_price,
            item.vendor_sell_price,
            item.market_buy_price,
            item.market_sell_price
        ),
        (7, "Black Stone", 100, 40, 0, 0)
    );
    let silver = ItemData::from_detail(1, "Silver", 0, 0);
    assert_eq!(silver.vendor_sell_price, 1);
    let trades = vec![Trade::new(7, 250, 3, 4), Trade::new(7, 999, 1, 1)];
    let item = item.with_market(&trades).unwrap();
    assert_eq!((item.market_buy_price, item.market_sell_price), (250, 250));
    assert_eq!((item.id, item.vendor_sell_price), (7, 40));
    let again = item.clone().with_market(&Vec::new());
    assert_eq!(again.err(), Some(FetchError::NoTrade));
    let t = Trade::new(1, 2, 3, 4);
    assert_eq!((t.id(), t.price(), t.volume(), t.stock()), (1, 2, 3, 4));
}

#[test]
fn recognised_text_is_sanitized() {
    assert_eq!(sanitize("Black Stone x7"), "Black Stone x7");
    assert_eq!(sanitize("Bl\u{e4}ck\u{a0}St\u{1F600}one\tx7\r\n"), "BlckStone\tx7\r\n");
    assert_eq!(sanitize("a\u{0}b\u{7f}c\u{1b}d\u{c}e~!"), "abcd\u{c}e~!");
    assert_eq!(sanitize(""), "");
}

#[test]
fn detection_from_edges() {
    let d = OcrOutputData::from_edges("Silver\u{2122} x 5", 10, 20, 110, 45).unwrap();
    assert_eq!(d.text, "Silver x 5");
    assert_eq!(
        d.area,
        Rect {
            x: 10,
            y: 20,
            width: 100,
            height: 25
        }
    );
    assert!(OcrOutputData::from_edges("a", 10, 20, 9, 45).is_none());
    assert!(OcrOutputData::from_edges("a", 10, 20, 11, 19).is_none());
    let d = OcrOutputData::from_edges("a", 0, 0, u32::MAX, u32::MAX).unwrap();
    assert_eq!((d.area.width, d.area.height), (u32::MAX, u32::MAX));
    let input: AnalyzeCaptureAreaInput = d.into();
    assert_eq!(input.text, "a");
    assert_eq!(input.area.width, u32::MAX);
    let out = OcrOutput {
        data: vec![
            OcrOutputData::from_edges("one", 0, 0, 1, 1).unwrap(),
            OcrOutputData::from_edges("two", 0, 0, 1, 1).unwrap(),
        ],
    };
    assert_eq!(out.texts(), vec!["one".to_string(), "two".to_string()]);
    let frame = OcrInput {
        data: vec![1, 2, 3],
        width: 1,
        height: 1,
    };
    assert_eq!(frame.data.len(), 3);
}

fn seen(text: &str, x: u32, y: u32, width: u32, height: u32) -> AnalyzeCaptureAreaInput {
    AnalyzeCaptureAreaInput {
        text: text.to_string(),
        area: Rect {
            x,
            y,
            width,
            height,
        },
    }
}

#[test]
fn chat_region_holds_every_line_of_loot() {
    let input = vec![
        seen("CRITICAL", 0, 0, 5000, 5000),
        seen("You have obtained [Black Stone]x7. (16:08)", 1200, 500, 300, 20),
        seen("You have obtained [Old Moon Ore]x2. (16:09)", 1180, 530, 250, 22),
        seen("Hello there", 10, 10, 10, 10),
    ];
    let envelope = Rect {
        x: 1180,
        y: 500,
        width: 320,
        height: 52,
    };
    assert_eq!(
        find_envelope(LootDetectionMode::OCRChatLootViaStream, &input),
        Some(envelope)
    );
    let config =
        BlackDesertLootTracker::screen_config(LootDetectionMode::OCRChatLootViaStream, &input, None);
    assert_eq!(
        config,
        ScreenConfig {
            capture_area: envelope,
            stream_fps_milli: CHAT_FPS_MILLI
        }
    );
    let tracker = BlackDesertLootTracker::new();
    let config = tracker.analyze(&input);
    assert_eq!(config.capture_area, envelope);
    assert_eq!(config.stream_fps_milli, 20_000);
}

#[test]
fn chat_region_without_loot() {
    let input = vec![seen("CRITICAL", 5, 5, 50, 50)];
    assert_eq!(find_envelope(LootDetectionMode::OCRChatLootViaStream, &input), None);
    let config =
        BlackDesertLootTracker::screen_config(LootDetectionMode::OCRChatLootViaStream, &input, None);
    assert_eq!(
        config.capture_area,
        Rect {
            x: 0,
            y: 0,
            width: 0,
            height: 0
        }
    );
    assert_eq!(config.stream_fps_milli, 20_000);
    let tracker = BlackDesertLootTracker::new();
    let config = tracker.analyze(&Vec::new());
    assert_eq!(
        config.capture_area,
        Rect {
            x: 1000,
            y: 400,
            width: 920,
            height: 640
        }
    );
}

#[test]
fn region_of_a_single_line_is_its_area() {
    let input = vec![seen("Silver x 5", 7, 9, 11, 13)];
    assert_eq!(
        find_envelope(LootDetectionMode::OCRDropLogViaStream, &input),
        Some(Rect {
            x: 7,
            y: 9,
            width: 11,
            height: 13
        })
    );
    let mut tracker = BlackDesertLootTracker::new();
    tracker.set_detection_mode(LootDetectionMode::OCRDropLogViaStream);
    assert_eq!(tracker.analyze(&input).capture_area.x, 7);
}

#[test]
fn drop_log_region() {
    let panel = DropLogPanel {
        width: 267,
        height: 340,
    };
    let input = vec![seen("Silver x 5", 7, 9, 11, 13)];
    let config = BlackDesertLootTracker::screen_config(
        LootDetectionMode::OCRDropLogViaStream,
        &input,
        Some(panel),
    );
    assert_eq!(
        config,
        ScreenConfig {
            capture_area: Rect {
                x: 1315 - 133,
                y: 640 - 170,
                width: 267 + 150,
                height: 340
            },
            stream_fps_milli: DROP_LOG_FPS_MILLI
        }
    );
    assert_eq!(DROP_LOG_FPS_MILLI, 2_400);
}

#[test]
fn session_goes_forward() {
    let s = CoreStatus::Initiated;
    assert!(!s.is_stopped());
    let s = s.start().unwrap();
    assert_eq!(s, CoreStatus::Started);
    assert_eq!(s.start(), None);
    let s = s.stop();
    assert!(s.is_stopped());
    assert_eq!(s.start(), None);
    assert_eq!(s.stop(), CoreStatus::Stopped);
    assert_eq!(CoreStatus::Initiated.stop(), CoreStatus::Stopped);
}

fn rect(x: u32, y: u32, width: u32, height: u32) -> Rect {
    Rect {
        x,
        y,
        width,
        height,
    }
}

#[test]
fn bounding_rectangle() {
    assert_eq!(bound(&vec![]), None);
    assert_eq!(bound(&vec![rect(7, 9, 11, 13)]), Some(rect(7, 9, 11, 13)));
    assert_eq!(
        bound(&vec![rect(10, 50, 10, 10), rect(5, 60, 100, 1), rect(20, 40, 1, 1)]),
        Some(rect(5, 40, 100, 21))
    );
    assert_eq!(
        bound(&vec![rect(0, 0, u32::MAX, 0), rect(u32::MAX, u32::MAX, 0, 0)]),
        Some(rect(0, 0, u32::MAX, u32::MAX))
    );
    assert!(all_areas_fit(&vec![rect(0, 0, u32::MAX, u32::MAX), rect(u32::MAX, 1, 0, 2)]));
    assert!(!all_areas_fit(&vec![rect(1, 0, u32::MAX, 0)]));
    assert!(!all_areas_fit(&vec![rect(0, 0, 0, 0), rect(0, 2, 0, u32::MAX - 1)]));
    assert!(all_areas_fit(&vec![]));
}

#[test]
fn areas_of_the_lines_of_loot() {
    let input = vec![
        seen("CRITICAL", 1, 0, u32::MAX, 0),
        seen("Silver x 5", 7, 9, 11, 13),
        seen("nothing", 0, 0, 1, 1),
        seen("Ore x 1", 1, 2, 3, 4),
    ];
    assert_eq!(
        matched_areas(LootDetectionMode::OCRDropLogViaStream, &input),
        vec![rect(7, 9, 11, 13), rect(1, 2, 3, 4)]
    );
    assert!(matched_areas(LootDetectionMode::OCRChatLootViaStream, &input).is_empty());
    // an area that does not fit matters only where its text is a line of loot
    assert!(areas_fit(LootDetectionMode::OCRDropLogViaStream, &input));
    let input = vec![seen("Silver x 5", 1, 0, u32::MAX, 0)];
    assert!(!areas_fit(LootDetectionMode::OCRDropLogViaStream, &input));
    assert!(areas_fit(LootDetectionMode::OCRChatLootViaStream, &input));
}

#[test]
fn capture_that_cannot_be_configured() {
    let chat = LootDetectionMode::OCRChatLootViaStream;
    let drop_log = LootDetectionMode::OCRDropLogViaStream;
    let wide = vec![seen("You have obtained [Black Stone]", 1, 0, u32::MAX, 0)];
    assert_eq!(BlackDesertLootTracker::try_screen_config(chat, &wide, None), None);
    let tracker = BlackDesertLootTracker::new();
    assert_eq!(tracker.try_analyze(&wide), None);
    let fine = vec![seen("You have obtained [Black Stone]", 1, 2, 3, 4)];
    assert_eq!(
        BlackDesertLootTracker::try_screen_config(chat, &fine, None),
        Some(ScreenConfig {
            capture_area: rect(1, 2, 3, 4),
            stream_fps_milli: 20_000
        })
    );
    assert_eq!(tracker.try_analyze(&fine).unwrap().capture_area, rect(1, 2, 3, 4));
    // the drop log needs the panel's size, and a panel that stays on the screen
    assert_eq!(BlackDesertLootTracker::try_screen_config(drop_log, &fine, None), None);
    let panel = |width, height| Some(DropLogPanel { width, height });
    assert_eq!(
        BlackDesertLootTracker::try_screen_config(drop_log, &fine, panel(2632, 10)),
        None
    );
    assert_eq!(
        BlackDesertLootTracker::try_screen_config(drop_log, &fine, panel(10, 1282)),
        None
    );
    assert_eq!(
        BlackDesertLootTracker::try_screen_config(drop_log, &wide, panel(2631, 1281)),
        Some(ScreenConfig {
            capture_area: rect(0, 0, 2781, 1281),
            stream_fps_milli: 2_400
        })
    );
}

#[test]
fn whole_target() {
    assert_eq!(rect(0, 0, 0, 0).on_target(1920, 1080), rect(0, 0, 1920, 1080));
    assert_eq!(rect(3, 4, 0, 0).on_target(1920, 1080), rect(3, 4, 1920, 1080));
    assert_eq!(rect(3, 4, 5, 0).on_target(1920, 1080), rect(3, 4, 5, 0));
    assert_eq!(rect(3, 4, 5, 6).on_target(1920, 1080), rect(3, 4, 5, 6));
}

#[test]
fn output_as_inputs() {
    let out = OcrOutput {
        data: vec![
            OcrOutputData::from_edges("one", 1, 2, 4, 6).unwrap(),
            OcrOutputData::from_edges("two", 0, 0, 1, 1).unwrap(),
        ],
    };
    let inputs = out.into_inputs();
    assert_eq!(inputs.len(), 2);
    assert_eq!(inputs[0].text, "one");
    assert_eq!(inputs[0].area, rect(1, 2, 3, 4));
    assert_eq!(inputs[1].text, "two");
    assert!(OcrOutput { data: vec![] }.into_inputs().is_empty());
}

#[test]
fn game_screen_as_screen() {
    let game = GameScreen {
        height: 1080,
        width: 1920,
        scale: 100,
    };
    assert_eq!(
        game.screen(),
        Screen {
            scale: 100,
            height: 1080,
            width: 1920
        }
    );
}
