//! How the quiz and summary screens, and popups, divide the terminal.
use ratatui::layout::{Constraint as RatatuiConstraint, Direction, Layout, Rect};
use vstd::prelude::*;

verus! {

/// A rectangle of the terminal, in cells.
#[derive(Debug, Clone, Copy, PartialEq, Eq, Structural)]
pub struct Area {
    pub x: u16,
    pub y: u16,
    pub width: u16,
    pub height: u16,
}

/// What one part of a layout asks for.
#[derive(Debug, Clone, Copy, PartialEq, Eq, Structural)]
pub enum Constraint {
    /// Exactly this many cells.
    Length(u16),
    /// At least this many cells.
    Min(u16),
    /// This share of the whole, in percent.
    Percentage(u16),
}

/// `area` with `margin` cells taken off each side, as `ratatui`'s `Rect::inner` does
/// (the doubled margin capped at `u16::MAX`): nothing at all when the margins do not
/// fit.
pub open spec fn inner_area(area: Area, margin: u16) -> Area {
    let m2 = if 2 * margin <= u16::MAX { 2 * margin } else { u16::MAX as int };
    if area.width < m2 || area.height < m2 {
        Area { x: 0, y: 0, width: 0, height: 0 }
    } else {
        Area {
            x: if area.x + margin <= u16::MAX { (area.x + margin) as u16 } else { u16::MAX },
            y: if area.y + margin <= u16::MAX { (area.y + margin) as u16 } else { u16::MAX },
            width: (area.width - m2) as u16,
            height: (area.height - m2) as u16,
        }
    }
}

/// `part` spans `inner` across the split and lies inside it along the split.
pub open spec fn part_of(inner: Area, vertical: bool, part: Area) -> bool {
    if vertical {
        &&& part.x == inner.x
        &&& part.width == inner.width
        &&& inner.y <= part.y
        &&& part.y + part.height <= inner.y + inner.height
    } else {
        &&& part.y == inner.y
        &&& part.height == inner.height
        &&& inner.x <= part.x
        &&& part.x + part.width <= inner.x + inner.width
    }
}

/// `parts` is what `ratatui`'s `Layout::split` can give for `area` split vertically (or
/// horizontally) with `margin` cells around it and `constraints`. The solver behind it
/// walks hash maps, so this is a relation, not a function of the arguments.
pub uninterp spec fn layout_split(area: Area, vertical: bool, margin: u16, constraints: Seq<Constraint>, parts: Seq<Area>) -> bool;

/// `parts` is a split of `area` into `n` parts, with `margin` cells around them.
pub open spec fn split_of(area: Area, vertical: bool, margin: u16, n: nat, parts: Seq<Area>) -> bool {
    &&& parts.len() == n
    &&& forall|i: int| 0 <= i < n ==> part_of(inner_area(area, margin), vertical, #[trigger] parts[i])
}

/// Calls `ratatui::layout::Layout::split`. The sizes along the split come from a
/// constraint solver whose choices are not stated here (they can depend on the order in
/// which hash maps are walked); the result is tied to the arguments by the relation
/// `layout_split`. The contract states what holds of every outcome, as the source shows
/// it: one area per constraint (`Layout::areas` insists on that
/// count); each spans the area inside the margins across the split (`changes_to_rects`
/// copies it); and each lies inside that area along the split, where the solver's
/// required constraints keep every boundary.
#[verifier::external_body]
fn split_area(area: Area, vertical: bool, margin: u16, constraints: &Vec<Constraint>) -> (res: Vec<Area>)
    ensures
        layout_split(area, vertical, margin, constraints@, res@),
        split_of(area, vertical, margin, constraints@.len(), res@),
{
    let direction = if vertical { Direction::Vertical } else { Direction::Horizontal };
    let cs = constraints.iter().map(|c| match *c {
        Constraint::Length(n) => RatatuiConstraint::Length(n),
        Constraint::Min(n) => RatatuiConstraint::Min(n),
        Constraint::Percentage(n) => RatatuiConstraint::Percentage(n),
    });
    let rects = Layout::default().direction(direction).margin(margin).constraints(cs)
        .split(Rect { x: area.x, y: area.y, width: area.width, height: area.height });
    rects.iter().map(|r| Area { x: r.x, y: r.y, width: r.width, height: r.height }).collect()
}

/// `area` split vertically (or horizontally) into one part per constraint, with
/// `margin` cells around them, as the layout solver settles it (see `split_area`).
pub fn split_layout(area: Area, vertical: bool, margin: u16, constraints: &Vec<Constraint>) -> (parts: Vec<Area>)
    ensures
        layout_split(area, vertical, margin, constraints@, parts@),
        split_of(area, vertical, margin, constraints@.len(), parts@),
{
    split_area(area, vertical, margin, constraints)
}

/// The parts of the quiz screen.
#[derive(Debug, Clone, Copy, PartialEq, Eq, Structural)]
pub struct QuizLayout {
    pub header_area: Area,
    pub question_area: Area,
    pub answer_area: Area,
    pub help_area: Area,
}

/// The parts of the summary screen.
#[derive(Debug, Clone, Copy, PartialEq, Eq, Structural)]
pub struct SummaryLayout {
    pub header_area: Area,
    pub content_area: Area,
    pub footer_area: Area,
}

pub open spec fn quiz_constraints() -> Seq<Constraint> {
    seq![Constraint::Length(3), Constraint::Min(2), Constraint::Percentage(80), Constraint::Length(4)]
}

pub open spec fn summary_constraints() -> Seq<Constraint> {
    seq![Constraint::Length(3), Constraint::Min(10), Constraint::Length(3)]
}

/// The quiz screen, top to bottom inside a one-cell margin: a three-line header, the
/// question (at least two lines), the answer (80%), four lines of help; the solver
/// settles the heights (see `split_area`).
pub fn calculate_quiz_chunks(area: Area) -> (l: QuizLayout)
    ensures
        layout_split(area, true, 1, quiz_constraints(), seq![l.header_area, l.question_area, l.answer_area, l.help_area]),
        split_of(area, true, 1, 4, seq![l.header_area, l.question_area, l.answer_area, l.help_area]),
{
    let mut cs: Vec<Constraint> = Vec::new();
    cs.push(Constraint::Length(3));
    cs.push(Constraint::Min(2));
    cs.push(Constraint::Percentage(80));
    cs.push(Constraint::Length(4));
    proof {
        assert(cs@ =~= quiz_constraints());
    }
    let parts = split_area(area, true, 1, &cs);
    let l = QuizLayout { header_area: parts[0], question_area: parts[1], answer_area: parts[2], help_area: parts[3] };
    proof {
        assert(seq![l.header_area, l.question_area, l.answer_area, l.help_area] =~= parts@);
    }
    l
}

/// The summary screen, top to bottom inside a one-cell margin: a three-line header, the
/// content (at least ten lines), a three-line footer; the solver settles the heights
/// (see `split_area`).
pub fn calculate_summary_chunks(area: Area) -> (l: SummaryLayout)
    ensures
        layout_split(area, true, 1, summary_constraints(), seq![l.header_area, l.content_area, l.footer_area]),
        split_of(area, true, 1, 3, seq![l.header_area, l.content_area, l.footer_area]),
{
    let mut cs: Vec<Constraint> = Vec::new();
    cs.push(Constraint::Length(3));
    cs.push(Constraint::Min(10));
    cs.push(Constraint::Length(3));
    proof {
        assert(cs@ =~= summary_constraints());
    }
    let parts = split_area(area, true, 1, &cs);
    let l = SummaryLayout { header_area: parts[0], content_area: parts[1], footer_area: parts[2] };
    proof {
        assert(seq![l.header_area, l.content_area, l.footer_area] =~= parts@);
    }
    l
}

/// The constraints that put a part of `percent` percent in the middle.
pub open spec fn centered_constraints(percent: u16) -> Seq<Constraint> {
    let side = ((100 - percent) / 2) as u16;
    seq![Constraint::Percentage(side), Constraint::Percentage(percent), Constraint::Percentage(side)]
}

fn centered(percent: u16) -> (cs: Vec<Constraint>)
    requires
        percent <= 100,
    ensures
        cs@ == centered_constraints(percent),
{
    let side = (100 - percent) / 2;
    let mut cs: Vec<Constraint> = Vec::new();
    cs.push(Constraint::Percentage(side));
    cs.push(Constraint::Percentage(percent));
    cs.push(Constraint::Percentage(side));
    proof {
        assert(cs@ =~= centered_constraints(percent));
    }
    cs
}

/// A popup's area: the middle of three rows of `area` (`percent_y` percent of its
/// height between two equal shares), and of that row the middle of three columns
/// (`percent_x` percent of its width); the solver settles the sizes (see
/// `split_area`), and the popup lies inside `area`.
pub fn centered_rect(percent_x: u16, percent_y: u16, area: Area) -> (r: Area)
    requires
        percent_x <= 100,
        percent_y <= 100,
    ensures
        exists|rows: Seq<Area>, cols: Seq<Area>|
            #![trigger layout_split(area, true, 0, centered_constraints(percent_y), rows), layout_split(rows[1], false, 0, centered_constraints(percent_x), cols)]
            layout_split(area, true, 0, centered_constraints(percent_y), rows) && rows.len() == 3
                && layout_split(rows[1], false, 0, centered_constraints(percent_x), cols) && cols.len() == 3
                && r == cols[1],
        exists|row: Area|
            #[trigger] part_of(inner_area(area, 0), true, row) && part_of(inner_area(row, 0), false, r),
        area.x <= r.x,
        r.x + r.width <= area.x + area.width,
        area.y <= r.y,
        r.y + r.height <= area.y + area.height,
{
    let rows = split_area(area, true, 0, &centered(percent_y));
    let row = rows[1];
    let cols = split_area(row, false, 0, &centered(percent_x));
    proof {
        assert(part_of(inner_area(area, 0), true, rows@[1]));
        assert(part_of(inner_area(row, 0), false, cols@[1]));
        assert(layout_split(area, true, 0, centered_constraints(percent_y), rows@));
        assert(layout_split(rows@[1], false, 0, centered_constraints(percent_x), cols@));
    }
    cols[1]
}

} // verus!
