//! Card classification: shapes, nominal sizes, styles and ruled lines.
use crate::note::{Kind, Status};
use vstd::prelude::*;

verus! {

#[derive(Clone, Copy, PartialEq, Eq, Debug, Structural)]
pub enum CardShape {
    Scrap,
    IndexCard,
    Literature,
    Divider,
}

/// Map (Status, Kind) → CardShape.
/// Fleeting → Scrap regardless of kind.
/// Permanent: Literature → Literature, Structure → Divider, Note → IndexCard.
pub fn shape_for(status: Status, kind: Kind) -> (s: CardShape)
    ensures
        status == Status::Fleeting ==> s == CardShape::Scrap,
        status == Status::Permanent && kind == Kind::Literature ==> s == CardShape::Literature,
        status == Status::Permanent && kind == Kind::Structure ==> s == CardShape::Divider,
        status == Status::Permanent && kind == Kind::Note ==> s == CardShape::IndexCard,
{
    match status {
        Status::Fleeting => CardShape::Scrap,
        Status::Permanent => match kind {
            Kind::Literature => CardShape::Literature,
            Kind::Structure => CardShape::Divider,
            Kind::Note => CardShape::IndexCard,
        },
    }
}

/// Nominal card body dimensions in world units (not including any
/// protruding tab).
#[derive(Clone, Copy, PartialEq, Eq, Debug, Structural)]
pub struct CardSize {
    pub width: u32,
    pub height: u32,
}

/// Nominal card body size of each shape: a scrap is a 240×130 torn strip, an
/// index card 300×200 (3×5), a literature card 300×224 (room for its footer)
/// and a divider 300×208.
pub fn card_size(shape: CardShape) -> (s: CardSize)
    ensures
        shape == CardShape::Scrap ==> s == (CardSize { width: 240, height: 130 }),
        shape == CardShape::IndexCard ==> s == (CardSize { width: 300, height: 200 }),
        shape == CardShape::Literature ==> s == (CardSize { width: 300, height: 224 }),
        shape == CardShape::Divider ==> s == (CardSize { width: 300, height: 208 }),
{
    match shape {
        CardShape::Scrap => CardSize { width: 240, height: 130 },
        CardShape::IndexCard => CardSize { width: 300, height: 200 },
        CardShape::Literature => CardSize { width: 300, height: 224 },
        CardShape::Divider => CardSize { width: 300, height: 208 },
    }
}

/// Width of the divider's protruding tab (sits above the body top edge).
pub const DIVIDER_TAB_WIDTH: u32 = 96;

/// Height of the divider's protruding tab.
pub const DIVIDER_TAB_HEIGHT: u32 = 26;

/// Height of the literature footer band.
pub const FOOTER_H: u32 = 24;

#[derive(Clone, Copy, PartialEq, Eq, Debug, Structural)]
pub enum CardStyle {
    Paper,
    Plain,
}

#[derive(Clone, Copy, PartialEq, Eq, Debug, Structural)]
pub enum RuledLines {
    /// No ruled lines.
    Unruled,
    Natural,
    Ink,
}

/// Vertical gap between ruled lines.
pub const RULE_SPACING: u32 = 22;

/// The natural red header rule, card-local y: just below the first heading line.
pub const RED_RULE_Y: u32 = 40;

/// First body rule (blue for Natural, ink for Ink), below the red header rule.
pub const RULE_TOP_OFFSET: u32 = 46;

/// Which theme ink a ruled line is drawn in.
#[derive(Clone, Copy, PartialEq, Eq, Debug, Structural)]
pub enum RuleInk {
    Red,
    Blue,
    Ink,
}

/// The body rules of a card face `height` tall: one every `RULE_SPACING`
/// from `RULE_TOP_OFFSET`, each strictly above the bottom edge, the next
/// one would not be.
pub open spec fn body_rules_fill(rs: Seq<(u32, RuleInk)>, from: int, ink: RuleInk, height: u32) -> bool {
    &&& forall|i: int|
        from <= i < rs.len() ==> #[trigger] rs[i] == ((RULE_TOP_OFFSET + (i - from) * RULE_SPACING) as u32, ink)
            && RULE_TOP_OFFSET + (i - from) * RULE_SPACING < height
    &&& RULE_TOP_OFFSET + (rs.len() - from) * RULE_SPACING >= height
}

/// Return (y_position, ink) pairs for ruled lines across a card face of
/// the given height. Positions are card-local (0 = top of the face).
/// - `Unruled` → empty.
/// - `Natural` → one red header rule at `RED_RULE_Y`, then blue rules every
///   `RULE_SPACING` starting at `RULE_TOP_OFFSET`.
/// - `Ink` → ink rules every `RULE_SPACING` starting at `RULE_TOP_OFFSET`,
///   no red header.
pub fn rules(lines: RuledLines, height: u32) -> (rs: Vec<(u32, RuleInk)>)
    ensures
        lines == RuledLines::Unruled ==> rs@.len() == 0,
        lines == RuledLines::Natural ==> rs@.len() >= 1 && rs@[0] == (RED_RULE_Y, RuleInk::Red)
            && body_rules_fill(rs@, 1, RuleInk::Blue, height),
        lines == RuledLines::Ink ==> body_rules_fill(rs@, 0, RuleInk::Ink, height),
{
    let mut result: Vec<(u32, RuleInk)> = Vec::new();
    let ink = match lines {
        RuledLines::Unruled => {
            return result;
        },
        RuledLines::Natural => {
            result.push((RED_RULE_Y, RuleInk::Red));
            RuleInk::Blue
        },
        RuledLines::Ink => RuleInk::Ink,
    };
    let from: usize = result.len();
    let mut y: u32 = RULE_TOP_OFFSET;
    while y < height
        invariant
            from == (if lines == RuledLines::Natural { 1int } else { 0int }),
            lines != RuledLines::Unruled,
            lines == RuledLines::Natural ==> ink == RuleInk::Blue && result@[0] == (RED_RULE_Y, RuleInk::Red),
            lines == RuledLines::Ink ==> ink == RuleInk::Ink,
            result@.len() >= from,
            y == RULE_TOP_OFFSET + (result@.len() - from) * RULE_SPACING,
            forall|i: int|
                from <= i < result@.len() ==> #[trigger] result@[i] == ((RULE_TOP_OFFSET + (i - from) * RULE_SPACING) as u32, ink)
                    && RULE_TOP_OFFSET + (i - from) * RULE_SPACING < height,
        decreases u32::MAX - y,
    {
        result.push((y, ink));
        if y > u32::MAX - RULE_SPACING {
            // No further rule fits below a face this tall.
            assert(RULE_TOP_OFFSET + (result@.len() - from) * RULE_SPACING >= height);
            return result;
        }
        y = y + RULE_SPACING;
    }
    result
}

} // verus!
