//! The two grammars of log lines. A chat line reads
//! `You have obtained [Item]x3. (16:08)`; a line of the drop log reads
//! `Item x 3`. A line that fits neither gives no event.

use crate::loot::{event, views, LootData, LootDetectionMode, LootView};
use crate::silver::Silver;
use crate::tracker::BlackDesertLootTracker;
use crate::text::{
    chars_of, digit_of, digits_number, extract_number, first_number, lemma_wrapping_step,
    lowercase_of, lower_chars, nfd_string, nfd_text, normalize_spaces, normalized, starts_with,
    text_of, title_cased, to_title_case,
};
use vstd::prelude::*;

verus! {

/// Where `c` first stands in `s` at or after `from`, or the length of `s` if
/// it does not.
pub open spec fn position(s: Seq<char>, c: char, from: int) -> int
    decreases s.len() - from,
{
    if from < 0 || from >= s.len() {
        s.len() as int
    } else if s[from] == c {
        from
    } else {
        position(s, c, from + 1)
    }
}

/// `position` is the least place at or after `from` that holds `c`.
pub proof fn lemma_position(s: Seq<char>, c: char, from: int)
    requires
        0 <= from <= s.len(),
    ensures
        from <= position(s, c, from) <= s.len(),
        forall|j: int| from <= j < position(s, c, from) ==> #[trigger] s[j] != c,
        position(s, c, from) < s.len() ==> s[position(s, c, from)] == c,
    decreases s.len() - from,
{
    if from < s.len() && s[from] != c {
        lemma_position(s, c, from + 1);
    }
}

/// A place before which, from `from` on, `c` does not stand, and which holds
/// `c` or is the end, is `position`.
pub proof fn lemma_position_is(s: Seq<char>, c: char, from: int, k: int)
    requires
        0 <= from <= k <= s.len(),
        forall|j: int| from <= j < k ==> #[trigger] s[j] != c,
        k < s.len() ==> s[k] == c,
    ensures
        position(s, c, from) == k,
{
    lemma_position(s, c, from);
    let p = position(s, c, from);
    if p < k {
        assert(s[p] != c);
    } else if p > k {
        assert(s[k] != c);
    }
}

/// Where `c` first stands in `v` at or after `from`, or the length of `v`.
pub fn find_char(v: &Vec<char>, c: char, from: usize) -> (at: usize)
    ensures
        at == position(v@, c, from as int),
        at <= v.len(),
        from <= v.len() ==> from <= at,
{
    if from >= v.len() {
        return v.len();
    }
    let mut i: usize = from;
    while i < v.len() && v[i] != c
        invariant
            from <= i <= v.len(),
            forall|j: int| from <= j < i ==> #[trigger] v@[j] != c,
        decreases v.len() - i,
    {
        i += 1;
    }
    proof {
        lemma_position_is(v@, c, from as int, i as int);
    }
    i
}

/// The number written by the digits among `v[from..to]`, read in 64 bits
/// with wrapping arithmetic.
pub fn read_digits(v: &Vec<char>, from: usize, to: usize) -> (n: u64)
    requires
        from <= to <= v.len(),
    ensures
        n == digits_number(v@.subrange(from as int, to as int)) % 0x1_0000_0000_0000_0000,
{
    let mut n: u64 = 0;
    let mut i: usize = from;
    assert(v@.subrange(from as int, from as int) =~= Seq::<char>::empty());
    while i < to
        invariant
            from <= i <= to <= v.len(),
            n == digits_number(v@.subrange(from as int, i as int)) % 0x1_0000_0000_0000_0000,
        decreases to - i,
    {
        proof {
            let now = v@.subrange(from as int, i + 1);
            assert(now.drop_last() =~= v@.subrange(from as int, i as int));
            assert(now.last() == v@[i as int]);
        }
        match digit_of(v[i]) {
            Some(d) => {
                proof {
                    lemma_wrapping_step(
                        digits_number(v@.subrange(from as int, i as int)),
                        n,
                        d,
                    );
                }
                n = n.wrapping_mul(10).wrapping_add(d as u64);
            },
            None => {},
        }
        i += 1;
    }
    n
}

/// A part of a time of day: the number that the digits among `v[from..to]`
/// write, where it is at most `limit`, and nothing where it is more.
pub fn read_time_part(v: &Vec<char>, from: usize, to: usize, limit: u8) -> (r: Option<u8>)
    requires
        from <= to <= v.len(),
    ensures
        r is Some == (digits_number(v@.subrange(from as int, to as int)) <= limit),
        r is Some ==> r->0 == digits_number(v@.subrange(from as int, to as int)),
{
    let mut n: u8 = 0;
    let mut over = false;
    let mut i: usize = from;
    assert(v@.subrange(from as int, from as int) =~= Seq::<char>::empty());
    while i < to
        invariant
            from <= i <= to <= v.len(),
            n <= limit,
            !over ==> n == digits_number(v@.subrange(from as int, i as int)),
            over ==> digits_number(v@.subrange(from as int, i as int)) > limit,
        decreases to - i,
    {
        proof {
            let now = v@.subrange(from as int, i + 1);
            assert(now.drop_last() =~= v@.subrange(from as int, i as int));
            assert(now.last() == v@[i as int]);
        }
        match digit_of(v[i]) {
            Some(d) => {
                if !over {
                    let wide: u16 = n as u16 * 10 + d as u16;
                    if wide > limit as u16 {
                        over = true;
                    } else {
                        n = wide as u8;
                    }
                }
            },
            None => {},
        }
        i += 1;
    }
    if over {
        None
    } else {
        Some(n)
    }
}

/// The phrase that a chat line about loot begins with.
pub open spec fn marker() -> Seq<char> {
    "You have obtained"@
}

/// The amount of a chat line: the number that was read, or 1 where none was
/// (the line then names a single item).
pub open spec fn amount_or_one(n: u64) -> u64 {
    if n == 0 {
        1
    } else {
        n
    }
}

/// The time of day that an hour and a minute as they are written give: the
/// two numbers, where the hour is at most 23 and the minute at most 59.
/// Numbers beyond that are no time of day, and no time of day is written as
/// 0 and 0.
pub open spec fn time_of(hour: nat, minute: nat) -> (u8, u8) {
    if hour <= 23 && minute <= 59 {
        (hour as u8, minute as u8)
    } else {
        (0, 0)
    }
}

/// What a chat line holds, the line being normalised: where the name
/// stands, and the numbers.
#[derive(Clone, Copy, Debug, PartialEq, Eq, Structural)]
pub struct ChatFields {
    /// Where the name begins: after the first `[`.
    pub name_start: usize,
    /// Where the name ends: at the next `]`.
    pub name_end: usize,
    pub amount: u64,
    pub hour: u8,
    pub minute: u8,
}

/// What a normalised chat line holds. The line has to begin with the marker.
/// The name stands between the first `[` and the next `]`. The amount is
/// written by the digits between that `]` and the next `(`; an amount of 0
/// counts as 1. The hour is written by the digits from that `(` to the next
/// `:`, the minute by those from there to the `:` after it, and the two are
/// the time of day where they are one: an hour up to 23 and a minute up to
/// 59. A line without the marker, without one of the brackets, or with
/// nothing between them holds nothing.
pub open spec fn chat_fields(data: Seq<char>) -> Option<ChatFields> {
    let open = position(data, '[', 0);
    let close = position(data, ']', open + 1);
    let paren = position(data, '(', close + 1);
    let colon = position(data, ':', paren);
    let colon2 = position(data, ':', colon + 1);
    if !marker().is_prefix_of(data) || close >= data.len() || close == open + 1 {
        None
    } else {
        let time = time_of(
            digits_number(data.subrange(paren, colon)),
            if colon < data.len() {
                digits_number(data.subrange(colon + 1, colon2))
            } else {
                0
            },
        );
        Some(
            ChatFields {
                name_start: (open + 1) as usize,
                name_end: close as usize,
                amount: amount_or_one(
                    (digits_number(data.subrange(close + 1, paren)) % 0x1_0000_0000_0000_0000) as u64,
                ),
                hour: time.0,
                minute: time.1,
            },
        )
    }
}

/// The event of a chat line: what the line, normalised, holds, with the name
/// in title case. A line that holds nothing gives no event.
pub open spec fn parse_chat(line: Seq<char>) -> Option<LootView> {
    let data = normalized(line);
    match chat_fields(data) {
        Some(f) => Some(
            event(
                title_cased(data.subrange(f.name_start as int, f.name_end as int)),
                f.amount,
                f.hour,
                f.minute,
            ),
        ),
        None => None,
    }
}

/// Whether `c` parts the name from the amount in a line of the drop log: an
/// `x`, in either case, once lowercased and decomposed.
pub open spec fn is_separator(c: char) -> bool {
    nfd_text(lower_chars(c)) == seq!['x']
}

/// Where the last separator of `s` stands, the first character of `s` not
/// counted; 0 if there is none.
pub open spec fn separator_position(s: Seq<char>) -> int
    decreases s.len(),
{
    if s.len() <= 1 {
        0
    } else if is_separator(s.last()) {
        s.len() - 1
    } else {
        separator_position(s.drop_last())
    }
}

/// The amount of a line of the drop log whose separator stands at `sep`:
/// the first number after the separator. Without a separator, without a
/// number after it, or with the number 0 there is no amount.
pub open spec fn drop_amount(line: Seq<char>, sep: int) -> Option<u64> {
    if sep <= 0 || sep >= line.len() {
        None
    } else {
        match first_number(line.skip(sep + 1)) {
            Some(n) => if n == 0 {
                None
            } else {
                Some(n)
            },
            None => None,
        }
    }
}

/// The event of a line of the drop log. The separator is the last one of the
/// line. The name is what stands before it, normalised and in title case;
/// the amount is the first number after it. A line without an amount gives
/// no event.
pub open spec fn parse_drop(line: Seq<char>) -> Option<LootView> {
    let sep = separator_position(line);
    match drop_amount(line, sep) {
        Some(n) => Some(event(title_cased(normalized(line.take(sep))), n, 0, 0)),
        None => None,
    }
}

/// The event of a line in the given mode.
pub open spec fn parse(mode: LootDetectionMode, line: Seq<char>) -> Option<LootView> {
    match mode {
        LootDetectionMode::OCRChatLootViaStream => parse_chat(line),
        LootDetectionMode::OCRDropLogViaStream => parse_drop(line),
    }
}

/// An event that a line gives is of one item at least.
pub proof fn lemma_parsed_amount(mode: LootDetectionMode, line: Seq<char>)
    requires
        parse(mode, line) is Some,
    ensures
        parse(mode, line)->0.amount >= 1,
{
}

/// An event that a line gives has a time of day: an hour up to 23 and a
/// minute up to 59.
pub proof fn lemma_parsed_time(mode: LootDetectionMode, line: Seq<char>)
    requires
        parse(mode, line) is Some,
    ensures
        parse(mode, line)->0.hour <= 23,
        parse(mode, line)->0.minute <= 59,
{
}

/// The texts of `v`, in order.
pub open spec fn texts(v: Seq<String>) -> Seq<Seq<char>> {
    v.map_values(|s: String| s@)
}

/// The events of the lines that give one, in the order of the lines.
pub open spec fn parse_all(mode: LootDetectionMode, lines: Seq<Seq<char>>) -> Seq<LootView> {
    lines.filter_map(|l: Seq<char>| parse(mode, l))
}

/// Whether the optional record is the optional event.
pub open spec fn is_event(r: Option<LootData>, e: Option<LootView>) -> bool {
    match r {
        Some(d) => e == Some(d@),
        None => e is None,
    }
}

/// Whether `c` is a separator of the drop log.
pub fn separates(c: char) -> (b: bool)
    ensures
        b == is_separator(c),
{
    let low = lowercase_of(c);
    let plain = nfd_string(low.as_str());
    let v = chars_of(plain.as_str());
    let b = v.len() == 1 && v[0] == 'x';
    proof {
        if b {
            assert(v@ =~= seq!['x']);
        } else if v@.len() == 1 {
            assert(v@[0] != seq!['x'][0]);
        }
    }
    b
}

/// Where the last separator of `v` stands, the first character not counted;
/// 0 if there is none.
pub fn find_separator(v: &Vec<char>) -> (at: usize)
    ensures
        at == separator_position(v@),
        at == 0 || at < v.len(),
{
    if v.len() == 0 {
        return 0;
    }
    let mut i: usize = v.len() - 1;
    assert(v@.take(v@.len() as int) =~= v@);
    while i != 0
        invariant
            i < v.len(),
            separator_position(v@) == separator_position(v@.take(i + 1)),
        decreases i,
    {
        proof {
            let now = v@.take(i + 1);
            assert(now.last() == v@[i as int]);
            assert(now.drop_last() =~= v@.take(i as int));
        }
        if separates(v[i]) {
            return i;
        }
        i -= 1;
    }
    0
}

/// What a normalised chat line holds.
pub fn scan_chat(chars: &Vec<char>) -> (r: Option<ChatFields>)
    ensures
        r == chat_fields(chars@),
        r is Some ==> r->0.hour <= 23 && r->0.minute <= 59,
{
    let phrase = chars_of("You have obtained");
    if !starts_with(chars, &phrase) {
        return None;
    }
    let open = find_char(chars, '[', 0);
    if open >= chars.len() {
        proof {
            assert(position(chars@, ']', open + 1) == chars@.len());
        }
        return None;
    }
    let close = find_char(chars, ']', open + 1);
    if close >= chars.len() || close == open + 1 {
        return None;
    }
    let paren = find_char(chars, '(', close + 1);
    let read = read_digits(chars, close + 1, paren);
    let amount: u64 = if read == 0 {
        1
    } else {
        read
    };
    let colon = find_char(chars, ':', paren);
    let hour_written = read_time_part(chars, paren, colon, 23);
    let minute_written = if colon < chars.len() {
        let colon2 = find_char(chars, ':', colon + 1);
        read_time_part(chars, colon + 1, colon2, 59)
    } else {
        Some(0)
    };
    let (hour, minute) = match (hour_written, minute_written) {
        (Some(h), Some(m)) => (h, m),
        _ => (0, 0),
    };
    Some(ChatFields { name_start: open + 1, name_end: close, amount, hour, minute })
}

/// The amount of a line of the drop log whose separator stands at `sep`.
pub fn amount_after(chars: &Vec<char>, sep: usize) -> (r: Option<u64>)
    ensures
        r == drop_amount(chars@, sep as int),
{
    if sep == 0 || sep >= chars.len() {
        return None;
    }
    let amount_str = text_of(chars, sep + 1, chars.len());
    assert(chars@.subrange(sep + 1, chars@.len() as int) =~= chars@.skip(sep + 1));
    match extract_number(amount_str.as_str()) {
        Some(amount) => if amount == 0 {
            None
        } else {
            Some(amount)
        },
        None => None,
    }
}

impl BlackDesertLootTracker {
    /// The event of one line of the drop log.
    pub fn parse_loot_drop_logs(data: &str) -> (r: Option<LootData>)
        ensures
            is_event(r, parse_drop(data@)),
            r is Some ==> r->0.amount >= 1 && r->0.hour == 0 && r->0.minute == 0,
    {
        let chars = chars_of(data);
        let sep = find_separator(&chars);
        match amount_after(&chars, sep) {
            Some(amount) => {
                let raw_loot = text_of(&chars, 0, sep);
                assert(chars@.subrange(0, sep as int) =~= data@.take(sep as int));
                let spaced = normalize_spaces(raw_loot.as_str());
                let loot = to_title_case(spaced.as_str());
                Some(
                    LootData {
                        id: 0,
                        name: loot,
                        amount,
                        price: Silver::new(0),
                        hour: 0,
                        minute: 0,
                    },
                )
            },
            None => None,
        }
    }

    /// The event of one chat line.
    pub fn parse_loot_chat(data: &str) -> (r: Option<LootData>)
        ensures
            is_event(r, parse_chat(data@)),
            r is Some ==> r->0.amount >= 1 && r->0.hour <= 23 && r->0.minute <= 59,
    {
        let data = normalize_spaces(data);
        let chars = chars_of(data.as_str());
        match scan_chat(&chars) {
            Some(f) => {
                proof {
                    lemma_position(chars@, '[', 0);
                    lemma_position(chars@, ']', position(chars@, '[', 0) + 1);
                }
                let raw_name = text_of(&chars, f.name_start, f.name_end);
                let itemname = to_title_case(raw_name.as_str());
                Some(
                    LootData {
                        id: 0,
                        name: itemname,
                        amount: f.amount,
                        price: Silver::new(0),
                        hour: f.hour,
                        minute: f.minute,
                    },
                )
            },
            None => None,
        }
    }

    /// The event of one line in the given mode, or `None` for a line that is
    /// no report of loot.
    pub fn parse_loot(detection_mode: LootDetectionMode, data: &String) -> (r: Option<LootData>)
        ensures
            is_event(r, parse(detection_mode, data@)),
            r is Some ==> r->0.amount >= 1 && r->0.hour <= 23 && r->0.minute <= 59,
    {
        match detection_mode {
            LootDetectionMode::OCRDropLogViaStream => Self::parse_loot_drop_logs(data.as_str()),
            LootDetectionMode::OCRChatLootViaStream => Self::parse_loot_chat(data.as_str()),
        }
    }

    /// The events of the lines that give one, in the order of the lines.
    pub fn multiple_parse_loot(detection_mode: LootDetectionMode, data: &Vec<String>) -> (r: Vec<
        LootData,
    >)
        ensures
            views(r@) == parse_all(detection_mode, texts(data@)),
            forall|i: int|
                0 <= i < r@.len() ==> (#[trigger] r@[i]).amount >= 1 && r@[i].hour <= 23
                    && r@[i].minute <= 59,
    {
        let mut loot_datas: Vec<LootData> = Vec::new();
        let mut i: usize = 0;
        let ghost f = |l: Seq<char>| parse(detection_mode, l);
        assert(texts(data@).take(0) =~= Seq::<Seq<char>>::empty());
        assert(views(loot_datas@) =~= Seq::<LootView>::empty());
        while i < data.len()
            invariant
                i <= data.len(),
                f == (|l: Seq<char>| parse(detection_mode, l)),
                views(loot_datas@) == texts(data@).take(i as int).filter_map(f),
                forall|k: int|
                    0 <= k < loot_datas@.len() ==> (#[trigger] loot_datas@[k]).amount >= 1
                        && loot_datas@[k].hour <= 23 && loot_datas@[k].minute <= 59,
            decreases data.len() - i,
        {
            let ghost before = loot_datas@;
            proof {
                let now = texts(data@).take(i + 1);
                assert(now.drop_last() =~= texts(data@).take(i as int));
                assert(now.last() == data@[i as int]@);
            }
            match Self::parse_loot(detection_mode, &data[i]) {
                Some(loot_data) => {
                    loot_datas.push(loot_data);
                    assert(views(loot_datas@) =~= views(before) + seq![loot_data@]);
                },
                None => {},
            }
            i += 1;
        }
        assert(texts(data@).take(data@.len() as int) =~= texts(data@));
        loot_datas
    }
}

} // verus!
