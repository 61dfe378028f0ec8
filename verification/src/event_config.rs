//! Events: the sticker that marks the numbers, and where on it the number is.

use crate::paths::FilePath;
use crate::score::Score;
use crate::text;
use vstd::prelude::*;

verus! {

/// A rectangle in fractions of an image's width and height.
#[derive(Clone, Copy, Debug, PartialEq, Eq, Structural)]
pub struct NormalizedRect {
    pub x: Score,
    pub y: Score,
    pub w: Score,
    pub h: Score,
}

/// Where a rectangle ends: its left edge plus its width, its upper edge plus its
/// height, each rounded as single-precision sums are.
#[derive(Clone, Copy, Debug, PartialEq, Eq, Structural)]
pub struct RectEdges {
    pub right: Score,
    pub bottom: Score,
}

/// What is wrong with an event.
#[derive(Clone, Copy, Debug, PartialEq, Eq, Structural)]
pub enum EventError {
    NonFiniteRegion,
    RegionNotPositive,
    RegionTooLarge,
    TemplateNotPositive,
    NoTemplatePath,
}

impl EventError {
    /// The words for it.
    pub open spec fn wording(self) -> Seq<char> {
        match self {
            EventError::NonFiniteRegion => "number region contains a non-finite value"@,
            EventError::RegionNotPositive => "number region must have positive size within 0..1"@,
            EventError::RegionTooLarge => "number region must fit inside the sticker template"@,
            EventError::TemplateNotPositive => "sticker template dimensions must be positive"@,
            EventError::NoTemplatePath => "sticker template path is empty"@,
        }
    }

    /// The message for it.
    pub fn message(self) -> (message: String)
        ensures
            message@ == self.wording(),
    {
        match self {
            EventError::NonFiniteRegion => text::owned("number region contains a non-finite value"),
            EventError::RegionNotPositive => text::owned(
                "number region must have positive size within 0..1",
            ),
            EventError::RegionTooLarge => text::owned(
                "number region must fit inside the sticker template",
            ),
            EventError::TemplateNotPositive => text::owned(
                "sticker template dimensions must be positive",
            ),
            EventError::NoTemplatePath => text::owned("sticker template path is empty"),
        }
    }
}

/// What is wrong with a region, the first thing first.
pub open spec fn region_fault(rect: NormalizedRect, edges: RectEdges) -> Option<EventError> {
    let zero = Score { bits: 0 };
    let one = Score { bits: 0x3f80_0000 };
    if !rect.x.finite() || !rect.y.finite() || !rect.w.finite() || !rect.h.finite() {
        Some(EventError::NonFiniteRegion)
    } else if rect.x.lt(zero) || rect.y.lt(zero) || zero.ge(rect.w) || zero.ge(rect.h) {
        Some(EventError::RegionNotPositive)
    } else if one.lt(edges.right) || one.lt(edges.bottom) {
        Some(EventError::RegionTooLarge)
    } else {
        None
    }
}

impl NormalizedRect {
    /// A rectangle, if it is a region of a template.
    pub fn new(x: Score, y: Score, w: Score, h: Score, edges: RectEdges) -> (rect: Result<
        NormalizedRect,
        EventError,
    >)
        ensures
            match rect {
                Ok(r) => r == (NormalizedRect { x, y, w, h }) && region_fault(r, edges) is None,
                Err(e) => region_fault(NormalizedRect { x, y, w, h }, edges) == Some(e),
            },
    {
        let rect = NormalizedRect { x, y, w, h };
        match rect.validate(edges) {
            Ok(()) => Ok(rect),
            Err(e) => Err(e),
        }
    }

    /// Checks that the rectangle is a region of a template: finite, of positive
    /// size, and inside.
    pub fn validate(self, edges: RectEdges) -> (checked: Result<(), EventError>)
        ensures
            match checked {
                Ok(()) => region_fault(self, edges) is None,
                Err(e) => region_fault(self, edges) == Some(e),
            },
    {
        let zero = Score { bits: 0 };
        let one = Score { bits: 0x3f80_0000 };
        if !self.x.is_finite() || !self.y.is_finite() || !self.w.is_finite()
            || !self.h.is_finite() {
            return Err(EventError::NonFiniteRegion);
        }
        if self.x.is_below(zero) || self.y.is_below(zero) || zero.is_at_least(self.w)
            || zero.is_at_least(self.h) {
            return Err(EventError::RegionNotPositive);
        }
        if one.is_below(edges.right) || one.is_below(edges.bottom) {
            return Err(EventError::RegionTooLarge);
        }
        Ok(())
    }
}

/// An event whose images are sorted.
#[derive(Debug)]
pub struct EventConfig {
    pub id: i64,
    pub name: String,
    pub sticker_template_path: FilePath,
    pub template_width: i32,
    pub template_height: i32,
    pub number_region: NormalizedRect,
}

/// What is wrong with an event, the first thing first.
pub open spec fn event_fault(event: EventConfig, edges: RectEdges) -> Option<EventError> {
    if region_fault(event.number_region, edges) is Some {
        region_fault(event.number_region, edges)
    } else if event.template_width <= 0 || event.template_height <= 0 {
        Some(EventError::TemplateNotPositive)
    } else if event.sticker_template_path@.len() == 0 {
        Some(EventError::NoTemplatePath)
    } else {
        None
    }
}

impl EventConfig {
    /// Checks that the event can be worked with.
    pub fn validate(&self, edges: RectEdges) -> (checked: Result<(), EventError>)
        ensures
            match checked {
                Ok(()) => event_fault(*self, edges) is None,
                Err(e) => event_fault(*self, edges) == Some(e),
            },
    {
        match self.number_region.validate(edges) {
            Ok(()) => {},
            Err(e) => {
                return Err(e);
            },
        }
        if self.template_width <= 0 || self.template_height <= 0 {
            return Err(EventError::TemplateNotPositive);
        }
        if self.sticker_template_path.written.len() == 0 {
            return Err(EventError::NoTemplatePath);
        }
        Ok(())
    }
}

/// A region is a region of a template just when its four numbers are finite, it starts
/// neither left of the template nor above it, its width and its height are above zero, and
/// neither its right nor its lower edge is beyond one.
pub proof fn regions_lie_inside_the_template(rect: NormalizedRect, edges: RectEdges)
    requires
        !edges.right.nan(),
        !edges.bottom.nan(),
    ensures
        ({
            let finite = rect.x.finite() && rect.y.finite() && rect.w.finite() && rect.h.finite();
            let positive = rect.x.value() >= 0 && rect.y.value() >= 0 && rect.w.value() > 0
                && rect.h.value() > 0;
            let one = Score { bits: 0x3f80_0000 };
            let inside = edges.right.value() <= one.value() && edges.bottom.value() <= one.value();
            &&& region_fault(rect, edges) is None <==> finite && positive && inside
            &&& !finite ==> region_fault(rect, edges) == Some(EventError::NonFiniteRegion)
            &&& finite && !positive ==> region_fault(rect, edges) == Some(
                EventError::RegionNotPositive,
            )
            &&& finite && positive && !inside ==> region_fault(rect, edges) == Some(
                EventError::RegionTooLarge,
            )
        }),
{
    assert(crate::score::scaled(0) == 0);
    assert(Score { bits: 0 }.value() == 0);
}

/// An event can be worked with just when its region is sound, its template has a size and a
/// path. What is wrong with the region is told first, then the size, then the path.
pub proof fn events_need_region_size_and_path(event: EventConfig, edges: RectEdges)
    ensures
        event_fault(event, edges) is None <==> region_fault(event.number_region, edges) is None
            && event.template_width > 0 && event.template_height > 0
            && event.sticker_template_path@.len() > 0,
        region_fault(event.number_region, edges) is Some ==> event_fault(event, edges)
            == region_fault(event.number_region, edges),
        region_fault(event.number_region, edges) is None && (event.template_width <= 0
            || event.template_height <= 0) ==> event_fault(event, edges) == Some(
            EventError::TemplateNotPositive,
        ),
        region_fault(event.number_region, edges) is None && event.template_width > 0
            && event.template_height > 0 && event.sticker_template_path@.len() == 0
            ==> event_fault(event, edges) == Some(EventError::NoTemplatePath),
{
}

/// Every fault is told in its own words, which name what is at fault.
pub proof fn faults_are_told_in_their_own_words(fault: EventError)
    ensures
        fault == EventError::NonFiniteRegion <==> fault.wording()
            == "number region contains a non-finite value"@,
        fault == EventError::RegionNotPositive <==> fault.wording()
            == "number region must have positive size within 0..1"@,
        fault == EventError::RegionTooLarge <==> fault.wording()
            == "number region must fit inside the sticker template"@,
        fault == EventError::TemplateNotPositive <==> fault.wording()
            == "sticker template dimensions must be positive"@,
        fault == EventError::NoTemplatePath <==> fault.wording()
            == "sticker template path is empty"@,
{
    reveal_strlit("number region contains a non-finite value");
    reveal_strlit("number region must have positive size within 0..1");
    reveal_strlit("number region must fit inside the sticker template");
    reveal_strlit("sticker template dimensions must be positive");
    reveal_strlit("sticker template path is empty");
    assert("number region contains a non-finite value"@.len() == 41);
    assert("number region must have positive size within 0..1"@.len() == 49);
    assert("number region must fit inside the sticker template"@.len() == 50);
    assert("sticker template dimensions must be positive"@.len() == 44);
    assert("sticker template path is empty"@.len() == 30);
}

}
