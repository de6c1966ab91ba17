//! Dividing the terminal's area, and finding what a point in it belongs to.

use ratatui::layout as tui;
use vstd::prelude::*;

verus! {

/// A rectangle of cells.
#[derive(Clone, Copy, Debug, PartialEq, Eq, Structural)]
pub struct Rect {
    pub x: u16,
    pub y: u16,
    pub width: u16,
    pub height: u16,
}

impl Rect {
    /// The first column to the right of the rectangle, as far as columns can be counted.
    pub open spec fn right_edge(self) -> int {
        if self.x + self.width <= u16::MAX {
            self.x + self.width
        } else {
            u16::MAX as int
        }
    }

    /// The first row below the rectangle, as far as rows can be counted.
    pub open spec fn bottom_edge(self) -> int {
        if self.y + self.height <= u16::MAX {
            self.y + self.height
        } else {
            u16::MAX as int
        }
    }

    /// The cell at a column and a row belongs to the rectangle.
    pub open spec fn covers(self, column: u16, row: u16) -> bool {
        self.x <= column < self.right_edge() && self.y <= row < self.bottom_edge()
    }

    pub fn right(&self) -> (edge: u16)
        ensures
            edge == self.right_edge(),
    {
        self.x.saturating_add(self.width)
    }

    pub fn bottom(&self) -> (edge: u16)
        ensures
            edge == self.bottom_edge(),
    {
        self.y.saturating_add(self.height)
    }
}

/// Which way an area is divided: into rows from top to bottom, or columns from left to right.
#[derive(Clone, Copy, Debug, PartialEq, Eq, Structural)]
pub enum Direction {
    Vertical,
    Horizontal,
}

/// How large a part should be: at least, exactly, or in percent of the whole.
#[derive(Clone, Copy, Debug, PartialEq, Eq, Structural)]
pub enum Constraint {
    Min(u16),
    Length(u16),
    Percentage(u16),
}

/// Where a rectangle begins in a direction.
pub open spec fn start(direction: Direction, area: Rect) -> int {
    match direction {
        Direction::Vertical => area.y as int,
        Direction::Horizontal => area.x as int,
    }
}

/// How far a rectangle reaches in a direction.
pub open spec fn size(direction: Direction, area: Rect) -> int {
    match direction {
        Direction::Vertical => area.height as int,
        Direction::Horizontal => area.width as int,
    }
}

/// How far a rectangle reaches in a direction, as far as cells can be counted.
pub open spec fn extent(direction: Direction, area: Rect) -> int {
    match direction {
        Direction::Vertical => area.bottom_edge() - area.y,
        Direction::Horizontal => area.right_edge() - area.x,
    }
}

/// Two rectangles agree across the direction.
pub open spec fn aligned(direction: Direction, a: Rect, b: Rect) -> bool {
    match direction {
        Direction::Vertical => a.x == b.x && a.width == b.width,
        Direction::Horizontal => a.y == b.y && a.height == b.height,
    }
}

/// The parts follow one another from the beginning of the area, without gaps and without leaving
/// the area, and reach across all of it.
pub open spec fn tiles(direction: Direction, area: Rect, parts: Seq<Rect>) -> bool {
    &&& forall|i: int| 0 <= i < parts.len() ==> aligned(direction, #[trigger] parts[i], area)
    &&& parts.len() > 0 ==> start(direction, parts[0]) == start(direction, area)
    &&& forall|i: int, j: int|
        0 <= i && j == i + 1 && j < parts.len() ==> start(direction, #[trigger] parts[j]) == start(
            direction,
            #[trigger] parts[i],
        ) + size(direction, parts[i])
    &&& forall|i: int|
        0 <= i < parts.len() ==> start(direction, #[trigger] parts[i]) + size(direction, parts[i])
            <= start(direction, area) + extent(direction, area)
}

/// What the constraints ask for at least.
pub open spec fn demand(constraints: Seq<Constraint>) -> int
    decreases constraints.len(),
{
    if constraints.len() == 0 {
        0
    } else {
        demand(constraints.drop_last()) + (match constraints.last() {
            Constraint::Min(n) => n as int,
            Constraint::Length(n) => n as int,
            Constraint::Percentage(_) => 0,
        })
    }
}

/// The constraints are lengths and minima that fit into the area.
pub open spec fn fits(direction: Direction, area: Rect, constraints: Seq<Constraint>) -> bool {
    &&& forall|i: int|
        0 <= i < constraints.len() ==> !(#[trigger] constraints[i] is Percentage)
    &&& demand(constraints) <= extent(direction, area)
}

/// Every length is met exactly and every minimum at least; a sole minimum takes all that the
/// lengths leave.
pub open spec fn meets(
    direction: Direction,
    area: Rect,
    constraints: Seq<Constraint>,
    parts: Seq<Rect>,
) -> bool {
    forall|i: int|
        0 <= i < constraints.len() ==> match #[trigger] constraints[i] {
            Constraint::Length(n) => size(direction, parts[i]) == n,
            Constraint::Min(n) => size(direction, parts[i]) >= n && (sole_min(constraints, i)
                ==> size(direction, parts[i]) == extent(direction, area) - (demand(constraints)
                - n)),
            Constraint::Percentage(_) => true,
        }
}

/// No other constraint than the one at `i` is a minimum.
pub open spec fn sole_min(constraints: Seq<Constraint>, i: int) -> bool {
    forall|k: int|
        0 <= k < constraints.len() && k != i ==> !(#[trigger] constraints[k] is Min)
}

/// The percentages of the first `n` constraints, added up.
pub open spec fn percents(constraints: Seq<Constraint>, n: int) -> int
    decreases n,
{
    if n <= 0 {
        0
    } else {
        percents(constraints, n - 1) + (match constraints[n - 1] {
            Constraint::Percentage(p) => p as int,
            _ => 0,
        })
    }
}

/// The constraints are percentages that make up no more than the whole.
pub open spec fn are_shares(constraints: Seq<Constraint>) -> bool {
    &&& forall|i: int| 0 <= i < constraints.len() ==> #[trigger] constraints[i] is Percentage
    &&& percents(constraints, constraints.len() as int) <= 100
}

/// A share of a length in percent, rounded to the nearest cell.
pub open spec fn share(percent: int, length: int) -> int {
    (percent * length + 50) / 100
}

/// Every part ends where its percentage and those before it come to.
pub open spec fn shares(
    direction: Direction,
    area: Rect,
    constraints: Seq<Constraint>,
    parts: Seq<Rect>,
) -> bool {
    forall|i: int|
        0 <= i < constraints.len() ==> start(direction, #[trigger] parts[i]) + size(
            direction,
            parts[i],
        ) == start(direction, area) + share(
            percents(constraints, i + 1),
            extent(direction, area),
        )
}

/// What the minima among the constraints ask for.
pub open spec fn least(constraints: Seq<Constraint>) -> int
    decreases constraints.len(),
{
    if constraints.len() == 0 {
        0
    } else {
        least(constraints.drop_last()) + (match constraints.last() {
            Constraint::Min(n) => n as int,
            _ => 0,
        })
    }
}

/// The constraints are lengths and minima that do not fit into the area.
pub open spec fn is_cramped(direction: Direction, area: Rect, constraints: Seq<Constraint>) -> bool {
    &&& forall|i: int|
        0 <= i < constraints.len() ==> !(#[trigger] constraints[i] is Percentage)
    &&& demand(constraints) > extent(direction, area)
}

/// The parts share the whole area, and none is larger than it has to be. Minima come before
/// lengths: they are met where there is room for all of them, and else there are no lengths.
pub open spec fn shrinks(
    direction: Direction,
    area: Rect,
    constraints: Seq<Constraint>,
    parts: Seq<Rect>,
) -> bool {
    let room = extent(direction, area);
    &&& start(direction, parts.last()) + size(direction, parts.last()) == start(direction, area)
        + room
    &&& forall|i: int|
        0 <= i < constraints.len() ==> match #[trigger] constraints[i] {
            Constraint::Length(n) => size(direction, parts[i]) <= n && (least(constraints) >= room
                ==> size(direction, parts[i]) == 0),
            Constraint::Min(n) => size(direction, parts[i]) <= n && (least(constraints) <= room
                ==> size(direction, parts[i]) == n),
            Constraint::Percentage(_) => true,
        }
}

/// The lesser of two numbers.
pub open spec fn lesser(a: int, b: int) -> int {
    if a <= b {
        a
    } else {
        b
    }
}

/// A number of thirds, rounded to the nearest whole.
pub open spec fn nearest_of_thirds(n: int) -> int {
    (2 * n + 3) / 6
}

/// Of lengths that do not grow from first to last the longer ones give way first, until they are
/// equally long: a length gets what it asks for, or an even share of what is there for it and those
/// before it, if that is less. So it is for two lengths, alone or after a minimum, and for three
/// lengths. Halves of cells go to the part before.
pub open spec fn evens_out(
    direction: Direction,
    area: Rect,
    constraints: Seq<Constraint>,
    parts: Seq<Rect>,
) -> bool {
    let count = constraints.len() as int;
    let rest = extent(direction, area) - least(constraints);
    if (count == 2 || count == 3 && constraints[0] is Min) && rest >= 0 {
        match (constraints[count - 2], constraints[count - 1]) {
            (Constraint::Length(a), Constraint::Length(b)) => a >= b ==> size(
                direction,
                parts[count - 1],
            ) == lesser(b as int, rest / 2),
            _ => true,
        }
    } else if count == 3 {
        match (constraints[0], constraints[1], constraints[2]) {
            (Constraint::Length(a), Constraint::Length(b), Constraint::Length(c)) => {
                a >= b >= c ==> if 3 * c <= rest {
                    size(direction, parts[2]) == c && size(direction, parts[1]) == lesser(
                        b as int,
                        (rest - c) / 2,
                    )
                } else {
                    size(direction, parts[0]) == nearest_of_thirds(rest) && size(
                        direction,
                        parts[0],
                    ) + size(direction, parts[1]) == nearest_of_thirds(2 * rest)
                }
            },
            _ => true,
        }
    } else {
        true
    }
}

/// The constraints are a length between two equal minima.
pub open spec fn is_between(constraints: Seq<Constraint>) -> bool {
    constraints.len() == 3 && constraints[0] is Min && constraints[1] is Length && constraints[2]
        == constraints[0]
}

/// `ratatui::layout::Layout::split` divides an area into one part for each constraint, here of at
/// most three. The parts follow one another and tile the area from its beginning. Lengths and
/// minima that fit are met, and a length between two equal minima stands in the middle, half a cell
/// further where it cannot stand there exactly. Where lengths and minima do not fit, minima come
/// before lengths. The weakest wish of the solver is that neighbours be equally long, so that of
/// several lengths the longer ones give way first; this is stated of lengths that do not grow from
/// first to last, where no other solution is as good. Percentages of no more than the whole give
/// parts that end at the rounded shares.
#[verifier::external_body]
fn split(direction: Direction, constraints: &Vec<Constraint>, area: Rect) -> (parts: Vec<Rect>)
    requires
        constraints@.len() <= 3,
    ensures
        parts@.len() == constraints@.len(),
        tiles(direction, area, parts@),
        fits(direction, area, constraints@) ==> meets(direction, area, constraints@, parts@),
        fits(direction, area, constraints@) && is_between(constraints@) ==> start(
            direction,
            parts@[1],
        ) == start(direction, area) + (extent(direction, area) - size(direction, parts@[1]) + 1)
            / 2,
        is_cramped(direction, area, constraints@) ==> shrinks(
            direction,
            area,
            constraints@,
            parts@,
        ),
        is_cramped(direction, area, constraints@) ==> evens_out(
            direction,
            area,
            constraints@,
            parts@,
        ),
        are_shares(constraints@) ==> shares(direction, area, constraints@, parts@),
{
    let way = match direction {
        Direction::Vertical => tui::Direction::Vertical,
        Direction::Horizontal => tui::Direction::Horizontal,
    };
    let wanted = constraints.iter().map(|c| match *c {
        Constraint::Min(n) => tui::Constraint::Min(n),
        Constraint::Length(n) => tui::Constraint::Length(n),
        Constraint::Percentage(n) => tui::Constraint::Percentage(n),
    });
    let whole = tui::Rect { x: area.x, y: area.y, width: area.width, height: area.height };
    let parts = tui::Layout::default().direction(way).constraints(wanted).split(whole);
    parts.iter().map(|r| Rect { x: r.x, y: r.y, width: r.width, height: r.height }).collect()
}

/// Where everything goes on the screen. `top` is the library together with the details beside it.
#[derive(Clone, Copy, Debug)]
pub struct UiLayout {
    pub top: Rect,
    pub library: Rect,
    pub details: Option<Rect>,
    pub transport: Rect,
    pub status: Rect,
}

/// The rows that the playback controls ask for.
pub open spec fn transport_rows(area: Rect) -> u16 {
    if area.height >= 18 {
        7
    } else {
        6
    }
}

/// What the three bands of the screen ask for.
pub open spec fn band_constraints(area: Rect) -> Seq<Constraint> {
    seq![
        Constraint::Min(6),
        Constraint::Length(transport_rows(area)),
        Constraint::Length(2),
    ]
}

/// Some rows of an area, the first of them `above` rows below its top.
pub open spec fn rows_of(area: Rect, above: int, count: int) -> Rect {
    Rect { x: area.x, y: (area.y + above) as u16, width: area.width, height: count as u16 }
}

/// How many rows the library, the playback controls and the status line get. Where there is no room
/// for all, the library keeps six rows, or what there is, and the status line gets no more than
/// half of the rest.
pub open spec fn band_rows(area: Rect) -> (int, int, int) {
    let room = extent(Direction::Vertical, area);
    let controls = transport_rows(area) as int;
    if room >= 8 + controls {
        (room - 2 - controls, controls, 2)
    } else if room >= 6 {
        let status = lesser(2, (room - 6) / 2);
        (6, room - 6 - status, status)
    } else {
        (room, 0, 0)
    }
}

/// The division of the screen into library, details, controls and status line.
pub open spec fn layout_of(area: Rect) -> UiLayout {
    let (high, controls, status) = band_rows(area);
    let top = rows_of(area, 0, high);
    let width = extent(Direction::Horizontal, area);
    let left = share(46, width);
    let wide = high >= 8 && area.width >= 100;
    UiLayout {
        top,
        library: if wide {
            Rect { width: left as u16, ..top }
        } else {
            top
        },
        details: if wide {
            Some(Rect { x: (area.x + left) as u16, width: (width - left) as u16, ..top })
        } else {
            None
        },
        transport: rows_of(area, high, controls),
        status: rows_of(area, high + controls, status),
    }
}

/// Three parts that tile the rows of an area are known by their heights.
proof fn lemma_three_bands(area: Rect, parts: Seq<Rect>, a: int, b: int, c: int)
    requires
        parts.len() == 3,
        tiles(Direction::Vertical, area, parts),
        parts[0].height == a,
        parts[1].height == b,
        parts[2].height == c,
    ensures
        parts[0] == rows_of(area, 0, a),
        parts[1] == rows_of(area, a, b),
        parts[2] == rows_of(area, a + b, c),
{
    assert(aligned(Direction::Vertical, parts[0], area));
    assert(aligned(Direction::Vertical, parts[1], area));
    assert(aligned(Direction::Vertical, parts[2], area));
    assert(start(Direction::Vertical, parts[1]) == start(Direction::Vertical, parts[0]) + size(
        Direction::Vertical,
        parts[0],
    ));
    assert(start(Direction::Vertical, parts[2]) == start(Direction::Vertical, parts[1]) + size(
        Direction::Vertical,
        parts[1],
    ));
}

/// What three constraints ask for.
proof fn lemma_three_demands(a: Constraint, b: Constraint, c: Constraint)
    ensures
        demand(seq![a, b, c]) == demand(seq![a]) + demand(seq![b]) + demand(seq![c]),
        least(seq![a, b, c]) == least(seq![a]) + least(seq![b]) + least(seq![c]),
        demand(seq![a, b]) == demand(seq![a]) + demand(seq![b]),
        least(seq![a, b]) == least(seq![a]) + least(seq![b]),
        a matches Constraint::Length(n) ==> demand(seq![a]) == n && least(seq![a]) == 0,
        b matches Constraint::Length(n) ==> demand(seq![b]) == n && least(seq![b]) == 0,
        c matches Constraint::Length(n) ==> demand(seq![c]) == n && least(seq![c]) == 0,
        a matches Constraint::Min(n) ==> demand(seq![a]) == n && least(seq![a]) == n,
{
    reveal_with_fuel(demand, 4);
    reveal_with_fuel(least, 4);
    assert(seq![a, b, c].drop_last() =~= seq![a, b]);
    assert(seq![a, b].drop_last() =~= seq![a]);
    assert(seq![a].drop_last() =~= seq![]);
    assert(seq![b].drop_last() =~= seq![]);
    assert(seq![c].drop_last() =~= seq![]);
}

/// Divides the screen.
pub fn compute_layout(area: Rect) -> (layout: UiLayout)
    ensures
        layout == layout_of(area),
{
    let rows: u16 = if area.height >= 18 {
        7
    } else {
        6
    };
    let mut wanted: Vec<Constraint> = Vec::new();
    wanted.push(Constraint::Min(6));
    wanted.push(Constraint::Length(rows));
    wanted.push(Constraint::Length(2));
    assert(wanted@ =~= band_constraints(area));
    let bands = split(Direction::Vertical, &wanted, area);
    proof {
        let plan = band_constraints(area);
        lemma_three_demands(plan[0], plan[1], plan[2]);
        assert(demand(plan) == 8 + rows && least(plan) == 6);
        assert(plan[0] == Constraint::Min(6));
        assert(plan[1] == Constraint::Length(rows));
        assert(plan[2] == Constraint::Length(2));
        assert(sole_min(plan, 0));
        assert(fits(Direction::Vertical, area, plan) || is_cramped(Direction::Vertical, area, plan));
        assert(start(Direction::Vertical, bands@[0]) == area.y);
        assert(start(Direction::Vertical, bands@[1]) == start(Direction::Vertical, bands@[0])
            + size(Direction::Vertical, bands@[0]));
        assert(start(Direction::Vertical, bands@[2]) == start(Direction::Vertical, bands@[1])
            + size(Direction::Vertical, bands@[1]));
        let (high, controls, status) = band_rows(area);
        lemma_three_bands(area, bands@, high, controls, status);
    }
    let top = bands[0];
    if top.height >= 8 && area.width >= 100 {
        let mut columns: Vec<Constraint> = Vec::new();
        columns.push(Constraint::Percentage(46));
        columns.push(Constraint::Percentage(54));
        let parts = split(Direction::Horizontal, &columns, top);
        proof {
            reveal_with_fuel(percents, 3);
            assert(are_shares(columns@));
            assert(percents(columns@, 1) == 46 && percents(columns@, 2) == 100);
            assert(aligned(Direction::Horizontal, parts@[0], top));
            assert(aligned(Direction::Horizontal, parts@[1], top));
            assert(start(Direction::Horizontal, parts@[0]) == top.x);
            assert(start(Direction::Horizontal, parts@[1]) == start(
                Direction::Horizontal,
                parts@[0],
            ) + size(Direction::Horizontal, parts@[0]));
        }
        UiLayout {
            top,
            library: parts[0],
            details: Some(parts[1]),
            transport: bands[1],
            status: bands[2],
        }
    } else {
        UiLayout { top, library: top, details: None, transport: bands[1], status: bands[2] }
    }
}

/// The playback controls: the timeline, the volume bar, and a line of help where there is room.
#[derive(Clone, Copy, Debug)]
pub struct TransportSections {
    pub timeline: Rect,
    pub volume: Rect,
    pub help: Option<Rect>,
}

/// How many rows the timeline, the volume bar and the line of help get, where it is shown. Without
/// room for all, the bars get the same, or the timeline one row more.
pub open spec fn section_rows(room: int, helped: bool) -> (int, int, int) {
    if !helped {
        if room >= 6 {
            (3, 3, 0)
        } else {
            (room - room / 2, room / 2, 0)
        }
    } else if room >= 7 {
        (3, 3, 1)
    } else if room >= 3 {
        (room - 1 - (room - 1) / 2, (room - 1) / 2, 1)
    } else {
        let first = nearest_of_thirds(room);
        let second = nearest_of_thirds(2 * room);
        (first, second - first, room - second)
    }
}

/// The division of the playback controls' area.
pub open spec fn sections_of(area: Rect) -> TransportSections {
    let helped = area.height >= 7;
    let (timeline, volume, help) = section_rows(extent(Direction::Vertical, area), helped);
    TransportSections {
        timeline: rows_of(area, 0, timeline),
        volume: rows_of(area, timeline, volume),
        help: if helped {
            Some(rows_of(area, timeline + volume, help))
        } else {
            None
        },
    }
}

/// Divides the area of the playback controls.
pub fn transport_sections(area: Rect) -> (sections: TransportSections)
    ensures
        sections == sections_of(area),
{
    let mut wanted: Vec<Constraint> = Vec::new();
    wanted.push(Constraint::Length(3));
    wanted.push(Constraint::Length(3));
    proof {
        lemma_three_demands(Constraint::Length(3), Constraint::Length(3), Constraint::Length(1));
    }
    if area.height >= 7 {
        wanted.push(Constraint::Length(1));
        let ghost plan = seq![Constraint::Length(3), Constraint::Length(3), Constraint::Length(1)];
        assert(wanted@ =~= plan);
        let parts = split(Direction::Vertical, &wanted, area);
        proof {
            assert(plan[0] == Constraint::Length(3));
            assert(plan[1] == Constraint::Length(3));
            assert(plan[2] == Constraint::Length(1));
            assert(fits(Direction::Vertical, area, plan) || is_cramped(
                Direction::Vertical,
                area,
                plan,
            ));
            assert(start(Direction::Vertical, parts@[0]) == area.y);
            assert(start(Direction::Vertical, parts@[1]) == start(Direction::Vertical, parts@[0])
                + size(Direction::Vertical, parts@[0]));
            assert(start(Direction::Vertical, parts@[2]) == start(Direction::Vertical, parts@[1])
                + size(Direction::Vertical, parts@[1]));
            let (a, b, c) = section_rows(extent(Direction::Vertical, area), true);
            lemma_three_bands(area, parts@, a, b, c);
        }
        return TransportSections { timeline: parts[0], volume: parts[1], help: Some(parts[2]) };
    }
    let ghost plan = seq![Constraint::Length(3), Constraint::Length(3)];
    assert(wanted@ =~= plan);
    let parts = split(Direction::Vertical, &wanted, area);
    proof {
        assert(plan[0] == Constraint::Length(3));
        assert(plan[1] == Constraint::Length(3));
        assert(fits(Direction::Vertical, area, plan) || is_cramped(
            Direction::Vertical,
            area,
            plan,
        ));
        assert(aligned(Direction::Vertical, parts@[0], area));
        assert(aligned(Direction::Vertical, parts@[1], area));
        assert(start(Direction::Vertical, parts@[0]) == area.y);
        assert(start(Direction::Vertical, parts@[1]) == start(Direction::Vertical, parts@[0])
            + size(Direction::Vertical, parts@[0]));
    }
    TransportSections { timeline: parts[0], volume: parts[1], help: None }
}

/// Whether a cell belongs to an area.
pub fn contains(area: Rect, column: u16, row: u16) -> (inside: bool)
    ensures
        inside == area.covers(column, row),
{
    column >= area.x && column < area.right() && row >= area.y && row < area.bottom()
}

/// A part of the playback controls that can be clicked.
#[derive(Clone, Copy, Debug, PartialEq, Eq, Structural)]
pub enum HitTarget {
    Timeline { area: Rect },
    Volume { area: Rect },
}

/// The part that a cell belongs to.
pub open spec fn hit(sections: TransportSections, column: u16, row: u16) -> Option<HitTarget> {
    if sections.timeline.covers(column, row) {
        Some(HitTarget::Timeline { area: sections.timeline })
    } else if sections.volume.covers(column, row) {
        Some(HitTarget::Volume { area: sections.volume })
    } else {
        None
    }
}

/// The part of the playback controls that a cell belongs to.
pub fn hit_section(sections: &TransportSections, column: u16, row: u16) -> (target: Option<
    HitTarget,
>)
    ensures
        target == hit(*sections, column, row),
{
    if contains(sections.timeline, column, row) {
        return Some(HitTarget::Timeline { area: sections.timeline });
    }
    if contains(sections.volume, column, row) {
        return Some(HitTarget::Volume { area: sections.volume });
    }
    None
}

/// What a click on a cell of the screen hits.
pub fn hit_test(area: Rect, column: u16, row: u16) -> (target: Option<HitTarget>)
    ensures
        target == hit(sections_of(layout_of(area).transport), column, row),
{
    let layout = compute_layout(area);
    let sections = transport_sections(layout.transport);
    hit_section(&sections, column, row)
}

/// The screen has room for all three bands.
pub open spec fn is_roomy(area: Rect) -> bool {
    area.y + area.height <= u16::MAX && area.height >= 14
}

/// On a screen with room for all three bands the status line takes the last two rows, the playback
/// controls the six or seven rows above it, and the library the rest.
pub proof fn law_roomy_layout(area: Rect)
    requires
        is_roomy(area),
    ensures
        ({
            let controls = transport_rows(area) as int;
            let layout = layout_of(area);
            &&& layout.status == rows_of(area, area.height - 2, 2)
            &&& layout.transport == rows_of(area, area.height - 2 - controls, controls)
            &&& layout.top == rows_of(area, 0, area.height - 2 - controls)
        }),
{
}

/// On such a screen the timeline takes the first three rows of the playback controls and the volume
/// bar the next three; a seventh row is the line of help.
pub proof fn law_roomy_transport(area: Rect)
    requires
        is_roomy(area),
    ensures
        ({
            let above = area.height - 2 - transport_rows(area);
            let sections = sections_of(layout_of(area).transport);
            &&& sections.timeline == rows_of(area, above, 3)
            &&& sections.volume == rows_of(area, above + 3, 3)
            &&& sections.help == (if area.height >= 18 {
                Some(rows_of(area, above + 6, 1))
            } else {
                None
            })
        }),
{
}

/// The three bands share all rows of the screen. On one without room for all of them the library
/// keeps six rows, or what there is, and the others get no more than they ask for: the status line
/// as many as the playback controls, as far as it asks for that many, or one less.
pub proof fn law_cramped_layout(area: Rect)
    ensures
        ({
            let room = extent(Direction::Vertical, area);
            let layout = layout_of(area);
            let (top, controls, status) = (
                layout.top.height as int,
                layout.transport.height as int,
                layout.status.height as int,
            );
            &&& top + controls + status == room
            &&& room < 8 + transport_rows(area) ==> {
                &&& top == lesser(room, 6)
                &&& controls <= transport_rows(area)
                &&& status <= 2
                &&& status < 2 ==> status <= controls <= status + 1
            }
        }),
{
}

/// Neither bar of the playback controls has more than three rows, nor the line of help more than
/// one; together they take as many rows as there are, or as they ask for. The timeline has as many
/// as the volume bar, or one more, but for a single row with a line of help.
pub proof fn law_transport_bars(area: Rect)
    ensures
        ({
            let room = extent(Direction::Vertical, area);
            let sections = sections_of(area);
            let (help, wanted) = match sections.help {
                Some(line) => (line.height as int, 7int),
                None => (0int, 6int),
            };
            let (timeline, volume) = (
                sections.timeline.height as int,
                sections.volume.height as int,
            );
            &&& timeline <= 3
            &&& volume <= 3
            &&& help <= 1
            &&& timeline + volume + help == lesser(room, wanted)
            &&& room != 1 || sections.help is None ==> volume <= timeline <= volume + 1
        }),
{
}

/// A click hits a bar only in the area of the playback controls, and nothing on a screen that has
/// room for no more than the library.
pub proof fn law_clicks_hit_the_controls_only(area: Rect, column: u16, row: u16)
    requires
        hit(sections_of(layout_of(area).transport), column, row) is Some,
    ensures
        layout_of(area).transport.covers(column, row),
        extent(Direction::Vertical, area) > 6,
{
    law_transport_bars(layout_of(area).transport);
}

/// The height of the dialog for text input.
pub open spec fn popup_rows(screen: Rect) -> u16 {
    if screen.height < 12 {
        5
    } else {
        7
    }
}

/// The rows of something of some height in the middle of an area: where it fits with a row above and
/// below it, as many above as below, or one more above; else all rows but one above and below it,
/// as far as there are any.
pub open spec fn middle_rows(height: u16, area: Rect) -> (int, int) {
    let room = extent(Direction::Vertical, area);
    if height + 2 <= room {
        (area.y + (room - height + 1) / 2, height as int)
    } else if room >= 2 {
        (area.y + 1, room - 2)
    } else {
        (area.y as int, 0)
    }
}

/// An area in the middle of another, of some share of its width and some height.
pub open spec fn is_centered(width_percent: u16, height: u16, area: Rect, middle: Rect) -> bool {
    let side = (100 - width_percent) / 2;
    let width = extent(Direction::Horizontal, area);
    let (row, rows) = middle_rows(height, area);
    &&& middle.height == rows
    &&& rows > 0 ==> middle.y == row
    &&& area.y <= middle.y <= area.bottom_edge()
    &&& middle.x == area.x + share(side, width)
    &&& middle.x + middle.width == area.x + share(side + width_percent, width)
}

/// An area in the middle of another, of some share of its width and some height.
pub fn centered_rect(width_percent: u16, height: u16, area: Rect) -> (middle: Rect)
    requires
        width_percent <= 100,
    ensures
        is_centered(width_percent, height, area, middle),
{
    let mut rows: Vec<Constraint> = Vec::new();
    rows.push(Constraint::Min(1));
    rows.push(Constraint::Length(height));
    rows.push(Constraint::Min(1));
    assert(rows@ =~= seq![Constraint::Min(1), Constraint::Length(height), Constraint::Min(1)]);
    let bands = split(Direction::Vertical, &rows, area);
    let side: u16 = (100 - width_percent) / 2;
    let mut columns: Vec<Constraint> = Vec::new();
    columns.push(Constraint::Percentage(side));
    columns.push(Constraint::Percentage(width_percent));
    columns.push(Constraint::Percentage(side));
    assert(columns@ =~= seq![
        Constraint::Percentage(side),
        Constraint::Percentage(width_percent),
        Constraint::Percentage(side),
    ]);
    let parts = split(Direction::Horizontal, &columns, bands[1]);
    proof {
        let wanted = rows@;
        reveal_with_fuel(percents, 4);
        reveal_with_fuel(demand, 4);
        reveal_with_fuel(least, 4);
        assert(wanted.drop_last() =~= seq![Constraint::Min(1), Constraint::Length(height)]);
        assert(wanted.drop_last().drop_last() =~= seq![Constraint::Min(1)]);
        assert(wanted.drop_last().drop_last().drop_last() =~= seq![]);
        assert(demand(wanted) == height + 2);
        assert(least(wanted) == 2);
        assert(wanted[0] == Constraint::Min(1));
        assert(wanted[1] == Constraint::Length(height));
        assert(wanted[2] == Constraint::Min(1));
        assert(is_between(wanted));
        assert(start(Direction::Vertical, bands@[0]) == area.y);
        assert(start(Direction::Vertical, bands@[1]) == start(Direction::Vertical, bands@[0])
            + size(Direction::Vertical, bands@[0]));
        assert(start(Direction::Vertical, bands@[2]) == start(Direction::Vertical, bands@[1])
            + size(Direction::Vertical, bands@[1]));
        assert(aligned(Direction::Vertical, bands@[1], area));
        assert(aligned(Direction::Horizontal, parts@[1], bands@[1]));
        assert(start(Direction::Horizontal, parts@[1]) == start(Direction::Horizontal, parts@[0])
            + size(Direction::Horizontal, parts@[0]));
        assert(percents(columns@, 1) == side);
        assert(percents(columns@, 2) == side + width_percent);
        assert(columns@[0] is Percentage);
        assert(columns@[1] is Percentage);
        assert(fits(Direction::Vertical, area, wanted) || is_cramped(
            Direction::Vertical,
            area,
            wanted,
        ));
    }
    parts[1]
}

/// What fits into the middle of an area has as many rows above it as below it, or one more.
pub proof fn law_centered_rows(width_percent: u16, height: u16, area: Rect, middle: Rect)
    requires
        is_centered(width_percent, height, area, middle),
        0 < height,
        height + 2 <= extent(Direction::Vertical, area),
    ensures
        middle.height == height,
        ({
            let above = middle.y - area.y;
            let below = area.bottom_edge() - (middle.y + height);
            below <= above <= below + 1
        }),
{
}

/// The dialog for text input: its area, the area of the line, and that of the hint where it is
/// shown.
#[derive(Clone, Copy, Debug)]
pub struct InputPopup {
    pub area: Rect,
    pub line: Rect,
    pub hint: Option<Rect>,
}

/// A division of the dialog's area.
pub open spec fn is_popup(screen: Rect, popup: InputPopup, rest: Rect) -> bool {
    let wanted = seq![Constraint::Length(3), Constraint::Min(1)];
    let parts = seq![popup.line, rest];
    &&& is_centered(70, popup_rows(screen), screen, popup.area)
    &&& tiles(Direction::Vertical, popup.area, parts)
    &&& fits(Direction::Vertical, popup.area, wanted) ==> meets(
        Direction::Vertical,
        popup.area,
        wanted,
        parts,
    )
    &&& is_cramped(Direction::Vertical, popup.area, wanted) ==> shrinks(
        Direction::Vertical,
        popup.area,
        wanted,
        parts,
    )
    &&& popup.hint == (if popup_rows(screen) >= 7 {
        Some(rest)
    } else {
        None
    })
}

/// Places the dialog for text input in the middle of the screen.
pub fn input_popup(screen: Rect) -> (popup: InputPopup)
    ensures
        exists|rest: Rect| #[trigger] is_popup(screen, popup, rest),
{
    let rows: u16 = if screen.height < 12 {
        5
    } else {
        7
    };
    let area = centered_rect(70, rows, screen);
    let mut wanted: Vec<Constraint> = Vec::new();
    wanted.push(Constraint::Length(3));
    wanted.push(Constraint::Min(1));
    assert(wanted@ =~= seq![Constraint::Length(3), Constraint::Min(1)]);
    let parts = split(Direction::Vertical, &wanted, area);
    assert(parts@ =~= seq![parts@[0], parts@[1]]);
    let popup = InputPopup {
        area,
        line: parts[0],
        hint: if rows >= 7 {
            Some(parts[1])
        } else {
            None
        },
    };
    proof {
        let plan = seq![Constraint::Length(3), Constraint::Min(1)];
        assert(plan == wanted@);
        assert(seq![popup.line, parts@[1]] == parts@);
        assert(tiles(Direction::Vertical, popup.area, parts@));
        assert(is_popup(screen, popup, parts@[1]));
    }
    popup
}

/// A part of a whole, counted in the same unit; nothing of it where the whole is zero.
#[derive(Clone, Copy, Debug, PartialEq, Eq, Structural)]
pub struct Fraction {
    pub part: u16,
    pub whole: u16,
}

/// The first and the last column inside a bar's border.
pub open spec fn gauge_columns(area: Rect) -> (int, int) {
    (
        if area.x < u16::MAX {
            area.x + 1
        } else {
            u16::MAX as int
        },
        if area.right_edge() >= 2 {
            area.right_edge() - 2
        } else {
            0
        },
    )
}

/// How far along a bar a column lies: at the first column inside the border nothing of the way, at
/// the last all of it.
pub open spec fn gauge_fraction(area: Rect, column: u16) -> Fraction {
    let (left, right) = gauge_columns(area);
    if right <= left {
        Fraction { part: 0, whole: 0 }
    } else {
        let clamped = if column < left {
            left
        } else if column > right {
            right
        } else {
            column as int
        };
        Fraction { part: (clamped - left) as u16, whole: (right - left) as u16 }
    }
}

/// How far along a bar a click was.
pub fn ratio_from_gauge_click(area: Rect, column: u16) -> (fraction: Fraction)
    ensures
        fraction == gauge_fraction(area, column),
{
    let left: u16 = area.x.saturating_add(1);
    let right: u16 = area.right().saturating_sub(2);
    if right <= left {
        return Fraction { part: 0, whole: 0 };
    }
    let clamped: u16 = if column < left {
        left
    } else if column > right {
        right
    } else {
        column
    };
    Fraction { part: clamped - left, whole: right - left }
}

/// A click never counts for more than the whole bar; further right never counts for less; at and
/// beyond the ends it counts for nothing and for everything.
pub proof fn law_gauge_clicks(area: Rect, column: u16, further: u16)
    requires
        column <= further,
    ensures
        gauge_fraction(area, column).part <= gauge_fraction(area, column).whole,
        gauge_fraction(area, column).whole == gauge_fraction(area, further).whole,
        gauge_fraction(area, column).part <= gauge_fraction(area, further).part,
        column <= gauge_columns(area).0 ==> gauge_fraction(area, column).part == 0,
        column >= gauge_columns(area).1 ==> gauge_fraction(area, column).part == gauge_fraction(
            area,
            column,
        ).whole,
{
}

}
