//! Change detection between two consecutive snapshots.
use vstd::prelude::*;
use vstd::arithmetic::div_mod::{
    lemma_fundamental_div_mod,
    lemma_fundamental_div_mod_converse,
    lemma_multiply_divide_lt,
    lemma_div_pos_is_pos,
    lemma_mod_pos_bound,
};
use crate::matrix::{Matrix, all_released, offset, lemma_offset_in_bounds};

verus! {

/// A reported transition: cell `(x, y)` was pressed, or, for the
/// release-all signal, `(0, 0)`.
#[derive(Debug, Clone, Copy, PartialEq, Eq, Structural)]
pub struct ButtonEvent {
    pub x: u16,
    pub y: u16,
}

/// The cell visited at step `i` of the scan: columns outer, rows inner.
pub open spec fn scan_cell(height: int, i: int) -> (int, int) {
    (i / height, i % height)
}

/// The event that reports a press of the cell visited at step `i`.
pub open spec fn scan_event(height: int, i: int) -> ButtonEvent {
    ButtonEvent { x: (i / height) as u16, y: (i % height) as u16 }
}

/// Whether the cell visited at step `i` went from released to pressed.
pub open spec fn pressed_at(prev: Seq<bool>, cur: Seq<bool>, width: int, height: int, i: int) -> bool {
    let (x, y) = scan_cell(height, i);
    cur[offset(width, x, y)] && !prev[offset(width, x, y)]
}

/// The press events of the first `n` steps of the scan, in scan order.
pub open spec fn presses_upto(prev: Seq<bool>, cur: Seq<bool>, width: int, height: int, n: nat) -> Seq<
    ButtonEvent,
>
    decreases n,
{
    if n == 0 {
        Seq::empty()
    } else {
        let rest = presses_upto(prev, cur, width, height, (n - 1) as nat);
        if pressed_at(prev, cur, width, height, n - 1) {
            rest.push(scan_event(height, n - 1))
        } else {
            rest
        }
    }
}

/// The press events between two snapshots of the same dimensions.
pub open spec fn presses(prev: Matrix, cur: Matrix) -> Seq<ButtonEvent> {
    presses_upto(
        prev.cells(),
        cur.cells(),
        cur.spec_width(),
        cur.spec_height(),
        (cur.spec_width() * cur.spec_height()) as nat,
    )
}

/// Whether the matrix went from some cell pressed to every cell released.
pub open spec fn released_all(prev: Matrix, cur: Matrix) -> bool {
    all_released(cur.cells()) && !all_released(prev.cells())
}

/// The events between two snapshots: the presses, then the release-all
/// signal when it is due.
pub open spec fn events_between(prev: Matrix, cur: Matrix) -> Seq<ButtonEvent> {
    if released_all(prev, cur) {
        presses(prev, cur).push(ButtonEvent { x: 0, y: 0 })
    } else {
        presses(prev, cur)
    }
}

/// Two snapshots that can be compared.
pub open spec fn comparable(prev: Matrix, cur: Matrix) -> bool {
    &&& prev.wf()
    &&& cur.wf()
    &&& prev.spec_width() == cur.spec_width()
    &&& prev.spec_height() == cur.spec_height()
}

/// Step `i` of the scan visits a cell of the grid.
pub proof fn lemma_scan_cell_in_bounds(width: int, height: int, i: int)
    requires
        0 < width,
        0 < height,
        0 <= i < width * height,
    ensures
        0 <= i / height < width,
        0 <= i % height < height,
{
    lemma_div_pos_is_pos(i, height);
    assert(height * width == width * height) by (nonlinear_arith);
    lemma_multiply_divide_lt(i, height, width);
    lemma_mod_pos_bound(i, height);
}

/// Cell `(x, y)` is visited at step `x * height + y` of the scan.
pub proof fn lemma_scan_index(height: int, x: int, y: int)
    requires
        0 < height,
        0 <= y < height,
    ensures
        scan_cell(height, x * height + y) == (x, y),
{
    lemma_fundamental_div_mod_converse(x * height + y, height, x, y);
}

/// Distinct steps of the scan visit distinct cells.
pub proof fn lemma_scan_injective(height: int, i: int, j: int)
    requires
        0 < height,
        0 <= i,
        0 <= j,
        scan_cell(height, i) == scan_cell(height, j),
    ensures
        i == j,
{
    lemma_fundamental_div_mod(i, height);
    lemma_fundamental_div_mod(j, height);
}

/// Whether `e` names a cell of the grid that went from released to pressed.
pub open spec fn is_press(prev: Matrix, cur: Matrix, e: ButtonEvent) -> bool {
    &&& (e.x as int) < cur.spec_width()
    &&& (e.y as int) < cur.spec_height()
    &&& cur.cell(e.x as int, e.y as int)
    &&& !prev.cell(e.x as int, e.y as int)
}

proof fn lemma_presses_upto_sound(
    prev: Seq<bool>,
    cur: Seq<bool>,
    width: int,
    height: int,
    n: nat,
    e: ButtonEvent,
)
    requires
        presses_upto(prev, cur, width, height, n).contains(e),
    ensures
        exists|i: int|
            0 <= i < n && pressed_at(prev, cur, width, height, i) && scan_event(height, i) == e,
    decreases n,
{
    if n > 0 {
        let rest = presses_upto(prev, cur, width, height, (n - 1) as nat);
        if pressed_at(prev, cur, width, height, n - 1) && scan_event(height, n - 1) == e {
        } else {
            if pressed_at(prev, cur, width, height, n - 1) {
                let full = rest.push(scan_event(height, n - 1));
                let k = choose|k: int| 0 <= k < full.len() && #[trigger] full[k] == e;
                assert(rest[k] == e);
            }
            lemma_presses_upto_sound(prev, cur, width, height, (n - 1) as nat, e);
        }
    }
}

proof fn lemma_presses_upto_complete(
    prev: Seq<bool>,
    cur: Seq<bool>,
    width: int,
    height: int,
    n: nat,
    i: int,
)
    requires
        0 <= i < n,
        pressed_at(prev, cur, width, height, i),
    ensures
        presses_upto(prev, cur, width, height, n).contains(scan_event(height, i)),
    decreases n,
{
    let rest = presses_upto(prev, cur, width, height, (n - 1) as nat);
    if i == n - 1 {
        assert(rest.push(scan_event(height, i)).last() == scan_event(height, i));
    } else {
        lemma_presses_upto_complete(prev, cur, width, height, (n - 1) as nat, i);
        if pressed_at(prev, cur, width, height, n - 1) {
            let k = choose|k: int| 0 <= k < rest.len() && #[trigger] rest[k] == scan_event(height, i);
            assert(rest.push(scan_event(height, n - 1))[k] == scan_event(height, i));
        }
    }
}

proof fn lemma_presses_upto_distinct(
    prev: Seq<bool>,
    cur: Seq<bool>,
    width: int,
    height: int,
    n: nat,
)
    requires
        0 < width <= crate::matrix::MAX_SIDE,
        0 < height <= crate::matrix::MAX_SIDE,
        n <= width * height,
    ensures
        presses_upto(prev, cur, width, height, n).no_duplicates(),
    decreases n,
{
    if n > 0 {
        let rest = presses_upto(prev, cur, width, height, (n - 1) as nat);
        lemma_presses_upto_distinct(prev, cur, width, height, (n - 1) as nat);
        if pressed_at(prev, cur, width, height, n - 1) {
            let last = scan_event(height, n - 1);
            if rest.contains(last) {
                lemma_presses_upto_sound(prev, cur, width, height, (n - 1) as nat, last);
                let i = choose|i: int|
                    0 <= i < n - 1 && pressed_at(prev, cur, width, height, i) && scan_event(
                        height,
                        i,
                    ) == last;
                lemma_scan_cell_in_bounds(width, height, i);
                lemma_scan_cell_in_bounds(width, height, n - 1);
                lemma_scan_injective(height, i, n - 1);
            }
            assert(rest.push(last).no_duplicates()) by {
                assert forall|a: int, b: int|
                    0 <= a < rest.push(last).len() && 0 <= b < rest.push(last).len() && a != b
                        implies rest.push(last)[a] != rest.push(last)[b] by {
                    if a == rest.len() {
                        assert(rest.contains(rest[b]));
                    } else if b == rest.len() {
                        assert(rest.contains(rest[a]));
                    }
                }
            }
        }
    }
}

/// Diffing is exact: an event stands among the presses iff it names a cell
/// that was released in `prev` and is pressed in `cur`; the events are those
/// presses, without repetition, followed by the release-all signal `(0, 0)`
/// iff `cur` is fully released and `prev` was not.
pub proof fn lemma_diff_exact(prev: Matrix, cur: Matrix)
    requires
        comparable(prev, cur),
    ensures
        forall|e: ButtonEvent| #[trigger] presses(prev, cur).contains(e) <==> is_press(prev, cur, e),
        presses(prev, cur).no_duplicates(),
        events_between(prev, cur) == (if released_all(prev, cur) {
            presses(prev, cur).push(ButtonEvent { x: 0, y: 0 })
        } else {
            presses(prev, cur)
        }),
{
    let width = cur.spec_width();
    let height = cur.spec_height();
    let n = (width * height) as nat;
    assert forall|e: ButtonEvent| #[trigger] presses(prev, cur).contains(e) <==> is_press(prev, cur, e) by {
        if presses(prev, cur).contains(e) {
            lemma_presses_upto_sound(prev.cells(), cur.cells(), width, height, n, e);
            let i = choose|i: int|
                0 <= i < n && pressed_at(prev.cells(), cur.cells(), width, height, i)
                    && scan_event(height, i) == e;
            lemma_scan_cell_in_bounds(width, height, i);
        }
        if is_press(prev, cur, e) {
            let i = e.x * height + e.y;
            lemma_scan_index(height, e.x as int, e.y as int);
            assert(i < n) by (nonlinear_arith)
                requires
                    i == e.x * height + e.y,
                    e.x < width,
                    e.y < height,
                    n == width * height,
            ;
            lemma_presses_upto_complete(prev.cells(), cur.cells(), width, height, n, i);
        }
    }
    lemma_presses_upto_distinct(prev.cells(), cur.cells(), width, height, n);
}

proof fn lemma_presses_upto_same(cells: Seq<bool>, width: int, height: int, n: nat)
    ensures
        presses_upto(cells, cells, width, height, n) == Seq::<ButtonEvent>::empty(),
    decreases n,
{
    if n > 0 {
        lemma_presses_upto_same(cells, width, height, (n - 1) as nat);
    }
}

/// Diffing a snapshot against itself yields no event at all.
pub proof fn lemma_diff_self(m: Matrix)
    requires
        m.wf(),
    ensures
        events_between(m, m) == Seq::<ButtonEvent>::empty(),
{
    lemma_presses_upto_same(
        m.cells(),
        m.spec_width(),
        m.spec_height(),
        (m.spec_width() * m.spec_height()) as nat,
    );
}

/// Against a fully released baseline, the events are one per pressed cell
/// of `cur`, each once, and no release-all signal.
pub proof fn lemma_diff_from_released(base: Matrix, cur: Matrix)
    requires
        comparable(base, cur),
        all_released(base.cells()),
    ensures
        forall|e: ButtonEvent| #[trigger]
            events_between(base, cur).contains(e) <==> ((e.x as int) < cur.spec_width() && (e.y
                as int) < cur.spec_height() && cur.cell(e.x as int, e.y as int)),
        events_between(base, cur).no_duplicates(),
        events_between(base, cur) == presses(base, cur),
{
    lemma_diff_exact(base, cur);
    assert forall|e: ButtonEvent| #[trigger]
        events_between(base, cur).contains(e) <==> ((e.x as int) < cur.spec_width() && (e.y
            as int) < cur.spec_height() && cur.cell(e.x as int, e.y as int)) by {
        if (e.x as int) < cur.spec_width() && (e.y as int) < cur.spec_height() {
            lemma_offset_in_bounds(cur.spec_width(), cur.spec_height(), e.x as int, e.y as int);
            assert(presses(base, cur).contains(e) <==> is_press(base, cur, e));
        }
    }
}

/// Comparing two snapshots: the cells that went from released to pressed,
/// in scan order, then the release-all signal `(0, 0)` when every cell is
/// released now and some cell was pressed before.
pub fn diff(prev: &Matrix, cur: &Matrix) -> (r: Vec<ButtonEvent>)
    requires
        comparable(*prev, *cur),
    ensures
        r@ == events_between(*prev, *cur),
{
    let width = cur.width();
    let height = cur.height();
    proof {
        crate::matrix::lemma_area_fits(width as int, height as int);
    }
    let n = width * height;
    let mut events: Vec<ButtonEvent> = Vec::new();
    let mut i: usize = 0;
    while i < n
        invariant
            comparable(*prev, *cur),
            width == cur.spec_width(),
            height == cur.spec_height(),
            n == width * height,
            i <= n,
            events@ == presses_upto(prev.cells(), cur.cells(), width as int, height as int, i as nat),
        decreases n - i,
    {
        proof {
            lemma_scan_cell_in_bounds(width as int, height as int, i as int);
        }
        let x = i / height;
        let y = i % height;
        if cur.get(x, y) && !prev.get(x, y) {
            events.push(ButtonEvent { x: x as u16, y: y as u16 });
        }
        i = i + 1;
    }
    if cur.empty() && !prev.empty() {
        events.push(ButtonEvent { x: 0, y: 0 });
    }
    events
}

} // verus!
