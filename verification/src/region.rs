//! Where on the screen to look. After a first reading of the whole screen,
//! the capture is narrowed: for the chat to the rectangle that holds every
//! line of loot that was read, for the drop log to the panel's fixed place.

use crate::loot::LootDetectionMode;
use crate::parser::parse;
use crate::tracker::BlackDesertLootTracker;
use vstd::prelude::*;

verus! {

/// A rectangle on the screen, in pixels.
#[derive(Clone, Copy, Debug, PartialEq, Eq, Structural)]
pub struct Rect {
    pub x: u32,
    pub y: u32,
    pub width: u32,
    pub height: u32,
}

impl Rect {
    /// Whether the rectangle's right and lower edges are coordinates too:
    /// numbers of 32 bits.
    pub open spec fn fits(self) -> bool {
        self.x + self.width <= u32::MAX && self.y + self.height <= u32::MAX
    }

    /// The x of the right edge.
    pub open spec fn right(self) -> int {
        self.x + self.width
    }

    /// The y of the lower edge.
    pub open spec fn bottom(self) -> int {
        self.y + self.height
    }
}

/// A recognised text and where it stands on the screen.
#[derive(Debug)]
pub struct AnalyzeCaptureAreaInput {
    pub text: String,
    pub area: Rect,
}

/// What an `AnalyzeCaptureAreaInput` holds, as plain values.
pub struct Detection {
    pub text: Seq<char>,
    pub area: Rect,
}

impl View for AnalyzeCaptureAreaInput {
    type V = Detection;

    open spec fn view(&self) -> Detection {
        Detection { text: self.text@, area: self.area }
    }
}

/// The views of the detections, in order.
pub open spec fn detections(v: Seq<AnalyzeCaptureAreaInput>) -> Seq<Detection> {
    v.map_values(|d: AnalyzeCaptureAreaInput| d@)
}

/// How to capture: the rectangle, and the frames per second, counted in
/// thousandths of a frame.
#[derive(Clone, Copy, Debug, PartialEq, Eq, Structural)]
pub struct OCRViaStreamConfig {
    pub capture_area: Rect,
    pub stream_fps_milli: u32,
}

/// How to capture: the rectangle, and the frames per second, counted in
/// thousandths of a frame. A rectangle of four noughts stands for the whole
/// target.
#[derive(Clone, Copy, Debug, PartialEq, Eq, Structural)]
pub struct ScreenConfig {
    pub capture_area: Rect,
    pub stream_fps_milli: u32,
}

/// The game's screen: its size in pixels, and its scale in hundredths.
#[derive(Clone, Copy, Debug, PartialEq, Eq, Structural)]
pub struct GameScreen {
    pub height: u32,
    pub width: u32,
    pub scale: u16,
}

/// The screen that the drop log's panel is measured on: its scale in
/// hundredths, and its size in pixels.
#[derive(Clone, Copy, Debug, PartialEq, Eq, Structural)]
pub struct Screen {
    pub scale: u16,
    pub height: u32,
    pub width: u32,
}

impl GameScreen {
    /// The game's screen as the screen to measure the panel on.
    pub fn screen(self) -> (s: Screen)
        ensures
            s == (Screen { scale: self.scale, height: self.height, width: self.width }),
    {
        Screen { scale: self.scale, height: self.height, width: self.width }
    }
}

/// The size of the drop log's panel on this screen, in pixels.
#[derive(Clone, Copy, Debug, PartialEq, Eq, Structural)]
pub struct DropLogPanel {
    pub width: u32,
    pub height: u32,
}

/// The frame rate for the chat: 20 frames per second.
pub const CHAT_FPS_MILLI: u32 = 20_000;

/// The frame rate for the drop log, a small panel that changes seldom: 12
/// frames in 5 seconds.
pub const DROP_LOG_FPS_MILLI: u32 = 2_400;

/// The x of the middle of the drop log's text.
pub const DROP_LOG_CENTER_X: u32 = 1315;

/// The y of the middle of the drop log's text.
pub const DROP_LOG_CENTER_Y: u32 = 640;

/// How much wider than the panel the capture is, for long names.
pub const DROP_LOG_MARGIN: u32 = 150;

/// Whether a detection is a line of loot in that mode.
pub open spec fn is_loot(mode: LootDetectionMode, d: Detection) -> bool {
    parse(mode, d.text) is Some
}

/// The areas of the detections that are lines of loot, in order.
pub open spec fn loot_areas(mode: LootDetectionMode, input: Seq<Detection>) -> Seq<Rect> {
    input.filter_map(
        |d: Detection|
            if is_loot(mode, d) {
                Some(d.area)
            } else {
                None
            },
    )
}

/// Whether every one of the areas fits the screen's coordinates.
pub open spec fn all_fit(areas: Seq<Rect>) -> bool {
    forall|i: int| 0 <= i < areas.len() ==> (#[trigger] areas[i]).fits()
}

/// The least x among the areas; u32::MAX for none.
pub open spec fn left_edge(areas: Seq<Rect>) -> int
    decreases areas.len(),
{
    if areas.len() == 0 {
        u32::MAX as int
    } else if areas.last().x < left_edge(areas.drop_last()) {
        areas.last().x as int
    } else {
        left_edge(areas.drop_last())
    }
}

/// The least y among the areas; u32::MAX for none.
pub open spec fn top_edge(areas: Seq<Rect>) -> int
    decreases areas.len(),
{
    if areas.len() == 0 {
        u32::MAX as int
    } else if areas.last().y < top_edge(areas.drop_last()) {
        areas.last().y as int
    } else {
        top_edge(areas.drop_last())
    }
}

/// The greatest right edge among the areas; 0 for none.
pub open spec fn right_edge(areas: Seq<Rect>) -> int
    decreases areas.len(),
{
    if areas.len() == 0 {
        0 as int
    } else if areas.last().right() > right_edge(areas.drop_last()) {
        areas.last().right() as int
    } else {
        right_edge(areas.drop_last())
    }
}

/// The greatest lower edge among the areas; 0 for none.
pub open spec fn bottom_edge(areas: Seq<Rect>) -> int
    decreases areas.len(),
{
    if areas.len() == 0 {
        0 as int
    } else if areas.last().bottom() > bottom_edge(areas.drop_last()) {
        areas.last().bottom() as int
    } else {
        bottom_edge(areas.drop_last())
    }
}

/// The least rectangle that holds every one of the areas, if there is one.
pub open spec fn bounding(areas: Seq<Rect>) -> Option<Rect> {
    if areas.len() == 0 {
        None
    } else {
        Some(
            Rect {
                x: left_edge(areas) as u32,
                y: top_edge(areas) as u32,
                width: (right_edge(areas) - left_edge(areas)) as u32,
                height: (bottom_edge(areas) - top_edge(areas)) as u32,
            },
        )
    }
}

/// The least rectangle that holds every line of loot among the detections,
/// if there is one.
pub open spec fn envelope(mode: LootDetectionMode, input: Seq<Detection>) -> Option<Rect> {
    bounding(loot_areas(mode, input))
}

/// Whether the areas of the lines of loot fit the screen's coordinates.
pub open spec fn loot_fits(mode: LootDetectionMode, input: Seq<Detection>) -> bool {
    all_fit(loot_areas(mode, input))
}

/// The four edges hold every one of the areas, and are coordinates.
pub proof fn lemma_edges_hold(areas: Seq<Rect>)
    requires
        all_fit(areas),
    ensures
        forall|i: int|
            0 <= i < areas.len() ==> {
                &&& left_edge(areas) <= (#[trigger] areas[i]).x
                &&& top_edge(areas) <= areas[i].y
                &&& areas[i].right() <= right_edge(areas)
                &&& areas[i].bottom() <= bottom_edge(areas)
            },
        0 <= left_edge(areas) <= u32::MAX,
        0 <= top_edge(areas) <= u32::MAX,
        0 <= right_edge(areas) <= u32::MAX,
        0 <= bottom_edge(areas) <= u32::MAX,
        areas.len() > 0 ==> left_edge(areas) <= right_edge(areas) && top_edge(areas)
            <= bottom_edge(areas),
    decreases areas.len(),
{
    if areas.len() > 0 {
        let before = areas.drop_last();
        let k = areas.len() - 1;
        assert(areas[k].fits());
        assert forall|i: int| 0 <= i < before.len() implies (#[trigger] before[i]).fits() by {
            assert(before[i] == areas[i]);
        }
        lemma_edges_hold(before);
        assert forall|i: int| 0 <= i < areas.len() implies {
            &&& left_edge(areas) <= (#[trigger] areas[i]).x
            &&& top_edge(areas) <= areas[i].y
            &&& areas[i].right() <= right_edge(areas)
            &&& areas[i].bottom() <= bottom_edge(areas)
        } by {
            if i < k {
                assert(areas[i] == before[i]);
            }
        }
    }
}

/// The left edge is the left edge of one of the areas.
pub proof fn lemma_left_edge_is_met(areas: Seq<Rect>)
    requires
        areas.len() > 0,
        all_fit(areas),
    ensures
        exists|i: int| 0 <= i < areas.len() && (#[trigger] areas[i]).x == left_edge(areas),
    decreases areas.len(),
{
    let before = areas.drop_last();
    let k = areas.len() - 1;
    assert(areas[k].fits());
    if left_edge(areas) == areas.last().x {
        assert(areas[k].x == left_edge(areas));
    } else {
        lemma_edges_hold(before);
        assert(before.len() > 0);
        lemma_left_edge_is_met(before);
        let w = choose|i: int| 0 <= i < before.len() && (#[trigger] before[i]).x == left_edge(before);
        assert(areas[w] == before[w]);
        assert(areas[w].x == left_edge(areas));
    }
}

/// The upper edge is the upper edge of one of the areas.
pub proof fn lemma_top_edge_is_met(areas: Seq<Rect>)
    requires
        areas.len() > 0,
        all_fit(areas),
    ensures
        exists|i: int| 0 <= i < areas.len() && (#[trigger] areas[i]).y == top_edge(areas),
    decreases areas.len(),
{
    let before = areas.drop_last();
    let k = areas.len() - 1;
    assert(areas[k].fits());
    if top_edge(areas) == areas.last().y {
        assert(areas[k].y == top_edge(areas));
    } else {
        lemma_edges_hold(before);
        assert(before.len() > 0);
        lemma_top_edge_is_met(before);
        let w = choose|i: int| 0 <= i < before.len() && (#[trigger] before[i]).y == top_edge(before);
        assert(areas[w] == before[w]);
        assert(areas[w].y == top_edge(areas));
    }
}

/// The right edge is the right edge of one of the areas.
pub proof fn lemma_right_edge_is_met(areas: Seq<Rect>)
    requires
        areas.len() > 0,
        all_fit(areas),
    ensures
        exists|i: int| 0 <= i < areas.len() && (#[trigger] areas[i]).right() == right_edge(areas),
    decreases areas.len(),
{
    let before = areas.drop_last();
    let k = areas.len() - 1;
    assert(areas[k].fits());
    if right_edge(areas) == areas.last().right() {
        assert(areas[k].right() == right_edge(areas));
    } else {
        lemma_edges_hold(before);
        assert(before.len() > 0);
        lemma_right_edge_is_met(before);
        let w = choose|i: int| 0 <= i < before.len() && (#[trigger] before[i]).right() == right_edge(before);
        assert(areas[w] == before[w]);
        assert(areas[w].right() == right_edge(areas));
    }
}

/// The lower edge is the lower edge of one of the areas.
pub proof fn lemma_bottom_edge_is_met(areas: Seq<Rect>)
    requires
        areas.len() > 0,
        all_fit(areas),
    ensures
        exists|i: int| 0 <= i < areas.len() && (#[trigger] areas[i]).bottom() == bottom_edge(areas),
    decreases areas.len(),
{
    let before = areas.drop_last();
    let k = areas.len() - 1;
    assert(areas[k].fits());
    if bottom_edge(areas) == areas.last().bottom() {
        assert(areas[k].bottom() == bottom_edge(areas));
    } else {
        lemma_edges_hold(before);
        assert(before.len() > 0);
        lemma_bottom_edge_is_met(before);
        let w = choose|i: int| 0 <= i < before.len() && (#[trigger] before[i]).bottom() == bottom_edge(before);
        assert(areas[w] == before[w]);
        assert(areas[w].bottom() == bottom_edge(areas));
    }
}

/// The rectangle to capture when no line of loot was read yet.
pub open spec fn default_area() -> Rect {
    Rect { x: 1000, y: 400, width: 920, height: 640 }
}

/// The rectangle that stands for the whole target.
pub open spec fn whole_target() -> Rect {
    Rect { x: 0, y: 0, width: 0, height: 0 }
}

/// The rectangle to capture for the drop log: the panel's size, with its
/// middle at the middle of the drop log's text, and widened by the margin.
pub open spec fn drop_log_area(panel: DropLogPanel) -> Rect {
    Rect {
        x: (DROP_LOG_CENTER_X - panel.width / 2) as u32,
        y: (DROP_LOG_CENTER_Y - panel.height / 2) as u32,
        width: (panel.width + DROP_LOG_MARGIN) as u32,
        height: panel.height,
    }
}

/// Whether the panel, with its middle at the middle of the drop log's text,
/// stays on the screen to the left and to the top.
pub open spec fn panel_fits(panel: DropLogPanel) -> bool {
    panel.width / 2 <= DROP_LOG_CENTER_X && panel.height / 2 <= DROP_LOG_CENTER_Y
}

/// Whether a capture can be configured from these: for the drop log the
/// panel's size is there and the panel stays on the screen; for the chat the
/// areas of the lines of loot fit the screen's coordinates.
pub open spec fn configurable(
    mode: LootDetectionMode,
    input: Seq<Detection>,
    panel: Option<DropLogPanel>,
) -> bool {
    match mode {
        LootDetectionMode::OCRDropLogViaStream => panel is Some && panel_fits(panel->0),
        LootDetectionMode::OCRChatLootViaStream => loot_fits(mode, input),
    }
}

/// How to capture in the given mode after a first reading.
pub open spec fn configured(
    mode: LootDetectionMode,
    input: Seq<Detection>,
    panel: Option<DropLogPanel>,
) -> ScreenConfig {
    match mode {
        LootDetectionMode::OCRDropLogViaStream => ScreenConfig {
            capture_area: drop_log_area(panel->0),
            stream_fps_milli: DROP_LOG_FPS_MILLI,
        },
        LootDetectionMode::OCRChatLootViaStream => ScreenConfig {
            capture_area: match envelope(mode, input) {
                Some(area) => area,
                None => whole_target(),
            },
            stream_fps_milli: CHAT_FPS_MILLI,
        },
    }
}

impl Rect {
    /// Whether the rectangle stands for the whole target: it has neither
    /// width nor height.
    pub open spec fn is_whole_target(self) -> bool {
        self.width == 0 && self.height == 0
    }

    /// The rectangle to capture on a target of the given size: the rectangle
    /// itself, or, where it stands for the whole target, one of the target's
    /// width and height.
    pub fn on_target(self, target_width: u32, target_height: u32) -> (area: Rect)
        ensures
            area == if self.is_whole_target() {
                Rect { width: target_width, height: target_height, ..self }
            } else {
                self
            },
    {
        if self.width == 0 && self.height == 0 {
            Rect { x: self.x, y: self.y, width: target_width, height: target_height }
        } else {
            self
        }
    }
}

/// The areas of the detections that are lines of loot in that mode, in
/// order.
pub fn matched_areas(mode: LootDetectionMode, input: &Vec<AnalyzeCaptureAreaInput>) -> (areas: Vec<
    Rect,
>)
    ensures
        areas@ == loot_areas(mode, detections(input@)),
{
    let ghost ds = detections(input@);
    let ghost f = |d: Detection|
        if is_loot(mode, d) {
            Some(d.area)
        } else {
            None
        };
    let mut areas: Vec<Rect> = Vec::new();
    let mut i: usize = 0;
    assert(ds.take(0) =~= Seq::<Detection>::empty());
    while i < input.len()
        invariant
            i <= input.len(),
            ds == detections(input@),
            ds.len() == input@.len(),
            f == (|d: Detection|
                if is_loot(mode, d) {
                    Some(d.area)
                } else {
                    None
                }),
            areas@ == ds.take(i as int).filter_map(f),
        decreases input.len() - i,
    {
        let v = &input[i];
        proof {
            let now = ds.take(i + 1);
            assert(now.drop_last() =~= ds.take(i as int));
            assert(now.last() == v@);
        }
        if BlackDesertLootTracker::parse_loot(mode, &v.text).is_some() {
            areas.push(v.area);
        }
        i += 1;
    }
    assert(ds.take(ds.len() as int) =~= ds);
    areas
}

/// Whether every one of the areas fits the screen's coordinates.
pub fn all_areas_fit(areas: &Vec<Rect>) -> (b: bool)
    ensures
        b == all_fit(areas@),
{
    let mut i: usize = 0;
    while i < areas.len()
        invariant
            i <= areas.len(),
            forall|j: int| 0 <= j < i ==> (#[trigger] areas@[j]).fits(),
        decreases areas.len() - i,
    {
        let a = areas[i];
        if a.width > u32::MAX - a.x || a.height > u32::MAX - a.y {
            assert(!areas@[i as int].fits());
            return false;
        }
        i += 1;
    }
    true
}

/// The least rectangle that holds every one of the areas, if there is one.
pub fn bound(areas: &Vec<Rect>) -> (r: Option<Rect>)
    requires
        all_fit(areas@),
    ensures
        r == bounding(areas@),
{
    if areas.len() == 0 {
        return None;
    }
    let mut left: u32 = u32::MAX;
    let mut top: u32 = u32::MAX;
    let mut right: u32 = 0;
    let mut bottom: u32 = 0;
    let mut i: usize = 0;
    while i < areas.len()
        invariant
            i <= areas.len(),
            all_fit(areas@),
            left == left_edge(areas@.take(i as int)),
            top == top_edge(areas@.take(i as int)),
            right == right_edge(areas@.take(i as int)),
            bottom == bottom_edge(areas@.take(i as int)),
        decreases areas.len() - i,
    {
        let a = areas[i];
        proof {
            let now = areas@.take(i + 1);
            assert(now.drop_last() =~= areas@.take(i as int));
            assert(now.last() == a);
            assert(areas@[i as int].fits());
        }
        if a.x < left {
            left = a.x;
        }
        if a.y < top {
            top = a.y;
        }
        if a.x + a.width > right {
            right = a.x + a.width;
        }
        if a.y + a.height > bottom {
            bottom = a.y + a.height;
        }
        i += 1;
    }
    proof {
        assert(areas@.take(areas@.len() as int) =~= areas@);
        lemma_edges_hold(areas@);
    }
    Some(Rect { x: left, y: top, width: right - left, height: bottom - top })
}

/// Whether the areas of the lines of loot fit the screen's coordinates.
pub fn areas_fit(mode: LootDetectionMode, input: &Vec<AnalyzeCaptureAreaInput>) -> (b: bool)
    ensures
        b == loot_fits(mode, detections(input@)),
{
    let areas = matched_areas(mode, input);
    all_areas_fit(&areas)
}

/// The least rectangle that holds every line of loot among the detections,
/// if there is one.
pub fn find_envelope(mode: LootDetectionMode, input: &Vec<AnalyzeCaptureAreaInput>) -> (r: Option<
    Rect,
>)
    requires
        loot_fits(mode, detections(input@)),
    ensures
        r == envelope(mode, detections(input@)),
{
    let areas = matched_areas(mode, input);
    bound(&areas)
}

impl BlackDesertLootTracker {
    /// How to capture in the given mode after a first reading. For the drop
    /// log: the panel's place, at the drop log's frame rate, whatever was
    /// read. For the chat: the least rectangle that holds every line of loot
    /// that was read, or the whole target if none was, at the chat's frame
    /// rate.
    pub fn screen_config(
        detection_mode: LootDetectionMode,
        input: &Vec<AnalyzeCaptureAreaInput>,
        panel: Option<DropLogPanel>,
    ) -> (config: ScreenConfig)
        requires
            configurable(detection_mode, detections(input@), panel),
        ensures
            config == configured(detection_mode, detections(input@), panel),
    {
        match detection_mode {
            LootDetectionMode::OCRDropLogViaStream => {
                let panel = panel.unwrap();
                ScreenConfig {
                    capture_area: Rect {
                        x: DROP_LOG_CENTER_X - panel.width / 2,
                        y: DROP_LOG_CENTER_Y - panel.height / 2,
                        width: panel.width + DROP_LOG_MARGIN,
                        height: panel.height,
                    },
                    stream_fps_milli: DROP_LOG_FPS_MILLI,
                }
            },
            LootDetectionMode::OCRChatLootViaStream => {
                let capture_area = match find_envelope(detection_mode, input) {
                    Some(area) => area,
                    None => Rect { x: 0, y: 0, width: 0, height: 0 },
                };
                ScreenConfig { capture_area, stream_fps_milli: CHAT_FPS_MILLI }
            },
        }
    }

    /// How to capture in the given mode after a first reading, where a
    /// capture can be configured from what is given, and else nothing.
    pub fn try_screen_config(
        detection_mode: LootDetectionMode,
        input: &Vec<AnalyzeCaptureAreaInput>,
        panel: Option<DropLogPanel>,
    ) -> (config: Option<ScreenConfig>)
        ensures
            config == if configurable(detection_mode, detections(input@), panel) {
                Some(configured(detection_mode, detections(input@), panel))
            } else {
                None
            },
    {
        let ok = match detection_mode {
            LootDetectionMode::OCRDropLogViaStream => match panel {
                Some(p) => p.width / 2 <= DROP_LOG_CENTER_X && p.height / 2 <= DROP_LOG_CENTER_Y,
                None => false,
            },
            LootDetectionMode::OCRChatLootViaStream => areas_fit(detection_mode, input),
        };
        if ok {
            Some(Self::screen_config(detection_mode, input, panel))
        } else {
            None
        }
    }
}

} // verus!
