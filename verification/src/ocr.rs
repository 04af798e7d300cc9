//! What goes to the recognition of text and what comes back: a frame's
//! pixels out, and texts with their places in.

use crate::region::{detections, AnalyzeCaptureAreaInput, Detection, Rect};
use crate::text::chars_of;
use std::convert::From;
use vstd::prelude::*;
use vstd::std_specs::convert::FromSpecImpl;

verus! {

/// One frame for the recognition: its pixels, and its size.
#[derive(Debug)]
pub struct OcrInput {
    pub data: Vec<u8>,
    pub width: u32,
    pub height: u32,
}

/// One recognised text and its place in the frame.
#[derive(Debug)]
pub struct OcrOutputData {
    pub text: String,
    pub area: Rect,
}

/// What was recognised in one frame.
#[derive(Debug)]
pub struct OcrOutput {
    pub data: Vec<OcrOutputData>,
}

impl View for OcrOutputData {
    type V = Detection;

    open spec fn view(&self) -> Detection {
        Detection { text: self.text@, area: self.area }
    }
}

impl FromSpecImpl<OcrOutputData> for AnalyzeCaptureAreaInput {
    open spec fn obeys_from_spec() -> bool {
        true
    }

    open spec fn from_spec(from: OcrOutputData) -> AnalyzeCaptureAreaInput {
        AnalyzeCaptureAreaInput { text: from.text, area: from.area }
    }
}

impl From<OcrOutputData> for AnalyzeCaptureAreaInput {
    fn from(from: OcrOutputData) -> AnalyzeCaptureAreaInput {
        AnalyzeCaptureAreaInput { text: from.text, area: from.area }
    }
}

/// Whether a character passes into a recognised text: the printable
/// characters of ASCII, from `!` to `~`, and ASCII's whitespace, which is the
/// space, the tab, the line feed, the form feed and the carriage return.
pub open spec fn is_plain(c: char) -> bool {
    ||| '!' <= c <= '~'
    ||| c == ' '
    ||| c == '\t'
    ||| c == '\n'
    ||| c == '\x0C'
    ||| c == '\r'
}

/// A text with only its plain characters.
pub open spec fn sanitized(s: Seq<char>) -> Seq<char> {
    s.filter(|c: char| is_plain(c))
}

/// The rectangle with these edges.
pub open spec fn rect_of_edges(left: u32, top: u32, right: u32, bottom: u32) -> Rect {
    Rect { x: left, y: top, width: (right - left) as u32, height: (bottom - top) as u32 }
}

/// A text with only its plain characters.
pub fn sanitize(s: &str) -> (clean: String)
    ensures
        clean@ == sanitized(s@),
{
    let chars = chars_of(s);
    let mut clean = String::new();
    let mut i: usize = 0;
    let ghost pred = |c: char| is_plain(c);
    proof {
        reveal(Seq::filter);
        assert(chars@.take(0) =~= Seq::<char>::empty());
    }
    while i < chars.len()
        invariant
            i <= chars.len(),
            pred == (|c: char| is_plain(c)),
            clean@ == chars@.take(i as int).filter(pred),
        decreases chars.len() - i,
    {
        let c = chars[i];
        proof {
            reveal(Seq::filter);
            let now = chars@.take(i + 1);
            assert(now.drop_last() =~= chars@.take(i as int));
            assert(now.last() == c);
        }
        if ('!' <= c && c <= '~') || c == ' ' || c == '\t' || c == '\n' || c == '\x0C' || c == '\r' {
            clean.push(c);
        }
        i += 1;
    }
    assert(chars@.take(chars@.len() as int) =~= chars@);
    clean
}

impl OcrOutputData {
    /// One recognised text as the recognition gave it, with the edges of its
    /// place: the text sanitized, the place as a rectangle. Edges that are
    /// the wrong way round give nothing.
    pub fn from_edges(text: &str, left: u32, top: u32, right: u32, bottom: u32) -> (r: Option<
        OcrOutputData,
    >)
        ensures
            (left <= right && top <= bottom) == r is Some,
            r is Some ==> r->0@ == (Detection {
                text: sanitized(text@),
                area: rect_of_edges(left, top, right, bottom),
            }),
            r is Some ==> r->0.area.fits(),
    {
        if left > right || top > bottom {
            return None;
        }
        Some(
            OcrOutputData {
                text: sanitize(text),
                area: Rect { x: left, y: top, width: right - left, height: bottom - top },
            },
        )
    }
}

/// The texts of the detections, in order.
pub open spec fn output_texts(data: Seq<OcrOutputData>) -> Seq<Seq<char>> {
    data.map_values(|d: OcrOutputData| d.text@)
}

impl OcrOutput {
    /// The recognised texts, in order.
    pub fn texts(&self) -> (r: Vec<String>)
        ensures
            crate::parser::texts(r@) == output_texts(self.data@),
    {
        let mut r: Vec<String> = Vec::new();
        let mut i: usize = 0;
        while i < self.data.len()
            invariant
                i <= self.data.len(),
                r@.len() == i,
                forall|j: int| 0 <= j < i ==> (#[trigger] r@[j])@ == self.data@[j].text@,
            decreases self.data.len() - i,
        {
            r.push(self.data[i].text.clone());
            i += 1;
        }
        assert(crate::parser::texts(r@) =~= output_texts(self.data@));
        r
    }

    /// The recognised texts with their places, as the calibration of the
    /// capture takes them.
    pub fn into_inputs(self) -> (r: Vec<AnalyzeCaptureAreaInput>)
        ensures
            detections(r@) == self.data@.map_values(|d: OcrOutputData| d@),
    {
        let ghost all = self.data@;
        let mut r: Vec<AnalyzeCaptureAreaInput> = Vec::new();
        let mut i: usize = 0;
        while i < self.data.len()
            invariant
                i <= self.data.len(),
                all == self.data@,
                r@.len() == i,
                forall|j: int| 0 <= j < i ==> (#[trigger] r@[j])@ == all[j]@,
            decreases self.data.len() - i,
        {
            let d = &self.data[i];
            r.push(AnalyzeCaptureAreaInput { text: d.text.clone(), area: d.area });
            i += 1;
        }
        assert(detections(r@) =~= all.map_values(|d: OcrOutputData| d@));
        r
    }
}

} // verus!
