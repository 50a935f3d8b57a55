//! What the dashboard shows, computed from the net's state: the rows of the
//! participant table, the turn progress, and the placement of popups.
use vstd::prelude::*;

use crate::state::App;

verus! {

/// How a queue row is highlighted.
#[derive(Clone, Copy, Debug, PartialEq, Eq, Structural)]
pub enum RowStatus {
    /// The operator whose turn it is.
    Active,
    /// Already answered this round.
    Done,
    /// Still to answer this round.
    Pending,
}

/// One row of the participant table: the queue position, the
/// participant's index in the roster, and its highlighting.
#[derive(Clone, Copy, Debug, PartialEq, Eq, Structural)]
pub struct QueueRow {
    pub position: usize,
    pub participant: usize,
    pub status: RowStatus,
}

/// The highlighting of queue position `i` when the active index is `idx`.
pub open spec fn row_status(i: int, idx: int) -> RowStatus {
    if i == idx {
        RowStatus::Active
    } else if i < idx {
        RowStatus::Done
    } else {
        RowStatus::Pending
    }
}

/// The table rows for queue positions `k..`: one per entry that names a
/// participant, in queue order.
pub open spec fn rows_from(q: Seq<usize>, n: nat, idx: int, k: int) -> Seq<QueueRow>
    decreases q.len() - k,
{
    if k >= q.len() {
        seq![]
    } else if q[k] < n {
        seq![QueueRow { position: k as usize, participant: q[k], status: row_status(k, idx) }]
            + rows_from(q, n, idx, k + 1)
    } else {
        rows_from(q, n, idx, k + 1)
    }
}

/// A rectangle of terminal cells.
#[derive(Clone, Copy, Debug, PartialEq, Eq, Structural)]
pub struct Area {
    pub x: u16,
    pub y: u16,
    pub width: u16,
    pub height: u16,
}

/// A rectangle as a value.
pub open spec fn area_view(a: Area) -> (u16, u16, u16, u16) {
    (a.x, a.y, a.width, a.height)
}

/// The direction a layout splits an area in.
#[derive(Clone, Copy, Debug, PartialEq, Eq, Structural)]
pub enum Axis {
    Vertical,
    Horizontal,
}

/// What ratatui's `Layout::split` makes of an area split along an axis
/// (vertically when `vertical`) by percentage constraints.
pub uninterp spec fn percent_layout(area: (u16, u16, u16, u16), vertical: bool, percents: Seq<u16>) -> Seq<
    (u16, u16, u16, u16),
>;

/// Calls `ratatui::layout::Layout::split` with three percentage
/// constraints; the rectangles are named by `percent_layout`, and there is
/// one per constraint (the solver makes one segment per constraint).
#[verifier::external_body]
fn split_by_percentages(area: Area, axis: Axis, percents: [u16; 3]) -> (r: Vec<Area>)
    ensures
        r@.len() == 3,
        r@.map_values(|a: Area| area_view(a)) == percent_layout(
            area_view(area),
            axis == Axis::Vertical,
            percents@,
        ),
{
    let direction = match axis {
        Axis::Vertical => ratatui::layout::Direction::Vertical,
        Axis::Horizontal => ratatui::layout::Direction::Horizontal,
    };
    let rect = ratatui::layout::Rect::new(area.x, area.y, area.width, area.height);
    let constraints = percents.map(ratatui::layout::Constraint::Percentage);
    ratatui::layout::Layout::default().direction(direction).constraints(constraints).split(
        rect,
    ).iter().map(|r| Area { x: r.x, y: r.y, width: r.width, height: r.height }).collect()
}

/// The three percentages that center a band of `p` percent.
pub open spec fn centering(p: u16) -> Seq<u16> {
    seq![((100 - p) / 2) as u16, p, ((100 - p) / 2) as u16]
}

/// The popup area centered in `r`, `px` percent wide and `py` percent high.
pub open spec fn centered_area(px: u16, py: u16, r: (u16, u16, u16, u16)) -> (u16, u16, u16, u16) {
    percent_layout(percent_layout(r, true, centering(py))[1], false, centering(px))[1]
}

/// Helper function to create a centered rectangle for popups.
pub fn centered_rect(percent_x: u16, percent_y: u16, r: Area) -> (c: Area)
    requires
        percent_x <= 100,
        percent_y <= 100,
    ensures
        area_view(c) == centered_area(percent_x, percent_y, area_view(r)),
{
    let vertical = [(100 - percent_y) / 2, percent_y, (100 - percent_y) / 2];
    assert(vertical@ == centering(percent_y));
    let rows = split_by_percentages(r, Axis::Vertical, vertical);
    assert(area_view(rows@[1]) == percent_layout(area_view(r), true, centering(percent_y))[1]);
    let horizontal = [(100 - percent_x) / 2, percent_x, (100 - percent_x) / 2];
    assert(horizontal@ == centering(percent_x));
    let cols = split_by_percentages(rows[1], Axis::Horizontal, horizontal);
    assert(area_view(cols@[1]) == percent_layout(area_view(rows@[1]), false, centering(percent_x))[1]);
    cols[1]
}

impl App {
    /// The rows of the participant table, in queue order; queue entries
    /// that name no participant are left out.
    pub fn queue_rows(&self) -> (rows: Vec<QueueRow>)
        ensures
            rows@ == rows_from(
                self.queue@,
                self.participants@.len(),
                self.current_queue_index as int,
                0,
            ),
    {
        let n = self.queue.len();
        let mut rows: Vec<QueueRow> = Vec::new();
        let mut k: usize = 0;
        while k < n
            invariant
                k <= n == self.queue@.len(),
                rows@ + rows_from(
                    self.queue@,
                    self.participants@.len(),
                    self.current_queue_index as int,
                    k as int,
                ) == rows_from(
                    self.queue@,
                    self.participants@.len(),
                    self.current_queue_index as int,
                    0,
                ),
            decreases n - k,
        {
            let id = self.queue[k];
            if id < self.participants.len() {
                let status = if k == self.current_queue_index {
                    RowStatus::Active
                } else if k < self.current_queue_index {
                    RowStatus::Done
                } else {
                    RowStatus::Pending
                };
                let row = QueueRow { position: k, participant: id, status };
                let ghost before = rows@;
                rows.push(row);
                assert(before + rows_from(
                    self.queue@,
                    self.participants@.len(),
                    self.current_queue_index as int,
                    k as int,
                ) == rows@ + rows_from(
                    self.queue@,
                    self.participants@.len(),
                    self.current_queue_index as int,
                    k + 1,
                ));
            }
            k += 1;
        }
        rows
    }

    /// The turn counter shown as "turn/queue length": the active position
    /// counted from one, capped at the queue's length; zero for an empty
    /// queue.
    pub fn turn_progress(&self) -> (p: (usize, usize))
        ensures
            p.1 == self.queue@.len(),
            p.0 == if self.queue@.len() == 0 {
                0
            } else if self.current_queue_index + 1 < self.queue@.len() {
                self.current_queue_index + 1
            } else {
                self.queue@.len() as int
            },
    {
        let len = self.queue.len();
        if len == 0 {
            (0, 0)
        } else if self.current_queue_index < len - 1 {
            (self.current_queue_index + 1, len)
        } else {
            (len, len)
        }
    }

    /// Whether every queued operator has had a turn this round.
    pub fn round_completed(&self) -> (b: bool)
        ensures
            b == (self.queue@.len() > 0 && self.current_queue_index >= self.queue@.len()),
    {
        self.queue.len() > 0 && self.current_queue_index >= self.queue.len()
    }
}

} // verus!
