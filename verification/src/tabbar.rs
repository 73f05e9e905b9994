//! A strip of tabs that can be reordered by dragging.

use crate::geom::{sat, sat_add, sat_sub, Point, Rect};
use crate::id::Id;
use vstd::prelude::*;

verus! {

/// One tab of a strip.
#[derive(Debug, Clone, Copy, PartialEq, Eq, Structural)]
pub struct TabItem {
    pub id: Id,
    pub width: u32,
    /// Where the tab begins, measured from the strip's left edge.
    pub offset: i64,
}

/// A strip of tabs. It is either idle or one tab of it is being dragged:
/// then `is_dragging` is set, `selected_tab_id` names the tab, and
/// `dragging_offset` holds the distance from the pointer to the tab's left
/// edge as it was when the drag began.
#[derive(Debug)]
pub struct TabBar {
    pub id: Id,
    pub panel_id: Id,
    pub bar_rect: Rect,
    pub tabs: Vec<TabItem>,
    pub selected_tab_id: Id,
    pub is_dragging: bool,
    pub dragging_offset: i64,
    /// The space between two tabs.
    pub gap: u32,
}

/// Where tab number `k` begins: behind the tabs before it and one gap each.
pub open spec fn offset_at(tabs: Seq<TabItem>, gap: u32, k: int) -> int
    decreases k,
{
    if k <= 0 {
        0
    } else {
        offset_at(tabs, gap, k - 1) + tabs[k - 1].width + gap
    }
}

/// The widths of the tabs, added up.
pub open spec fn sum_widths(tabs: Seq<TabItem>) -> int
    decreases tabs.len(),
{
    if tabs.len() == 0 {
        0
    } else {
        sum_widths(tabs.drop_last()) + tabs.last().width
    }
}

/// Whether tab `t`, which stands at place `j`, lies before a dragged tab
/// from place `indx` whose left edge is at `x` and which is `width` wide.
/// A tab that stood before the dragged one stays before it until the
/// dragged tab's left edge has passed its middle; a tab that stood behind
/// it comes before it once the dragged tab's right edge has passed its
/// middle. `origin` is the strip's left edge.
pub open spec fn lies_before(t: TabItem, origin: int, j: int, x: int, width: int, indx: int) -> bool {
    let middle_twice = 2 * (origin + t.offset) + t.width;
    if j < indx {
        middle_twice <= 2 * x
    } else {
        middle_twice < 2 * (x + width)
    }
}

/// How many of the first `m` tabs, the dragged one apart, lie before it.
pub open spec fn count_before(
    tabs: Seq<TabItem>,
    origin: int,
    x: int,
    width: int,
    indx: int,
    m: int,
) -> int
    decreases m,
{
    if m <= 0 {
        0
    } else {
        count_before(tabs, origin, x, width, indx, m - 1) + (if m - 1 != indx && lies_before(
            tabs[m - 1],
            origin,
            m - 1,
            x,
            width,
            indx,
        ) {
            1int
        } else {
            0int
        })
    }
}

/// The tabs after the one at `from` has been taken out and put in again at
/// `to`. The others keep their order.
pub open spec fn moved(tabs: Seq<TabItem>, from: int, to: int) -> Seq<TabItem> {
    if 0 <= from < tabs.len() && 0 <= to < tabs.len() {
        tabs.remove(from).insert(to, tabs[from])
    } else {
        tabs
    }
}

/// `x` held between `lo` and `hi`: raised to `lo` first, then lowered to
/// `hi`.
pub open spec fn held(x: int, lo: int, hi: int) -> int {
    let raised = if x < lo {
        lo
    } else {
        x
    };
    if raised > hi {
        hi
    } else {
        raised
    }
}

/// The count of tabs before a dragged one is at most the number of other
/// tabs looked at.
pub proof fn lemma_count_before_bounds(
    tabs: Seq<TabItem>,
    origin: int,
    x: int,
    width: int,
    indx: int,
    m: int,
)
    ensures
        0 <= count_before(tabs, origin, x, width, indx, m),
        count_before(tabs, origin, x, width, indx, m) <= (if m <= 0 {
            0
        } else if 0 <= indx < m {
            m - 1
        } else {
            m
        }),
    decreases m,
{
    if m > 0 {
        lemma_count_before_bounds(tabs, origin, x, width, indx, m - 1);
    }
}

/// A strip of tabs as a value: what `TabBar` holds, with the tabs as a
/// sequence.
pub struct TabModel {
    pub id: Id,
    pub panel_id: Id,
    pub bar_rect: Rect,
    pub tabs: Seq<TabItem>,
    pub selected_tab_id: Id,
    pub is_dragging: bool,
    pub dragging_offset: i64,
    pub gap: u32,
}

impl View for TabBar {
    type V = TabModel;

    open spec fn view(&self) -> TabModel {
        TabModel {
            id: self.id,
            panel_id: self.panel_id,
            bar_rect: self.bar_rect,
            tabs: self.tabs@,
            selected_tab_id: self.selected_tab_id,
            is_dragging: self.is_dragging,
            dragging_offset: self.dragging_offset,
            gap: self.gap,
        }
    }
}

impl TabModel {
    /// An idle strip without tabs.
    pub open spec fn empty() -> TabModel {
        TabModel {
            id: Id(0),
            panel_id: Id(0),
            bar_rect: Rect { min: Point { x: 0, y: 0 }, max: Point { x: 0, y: 0 } },
            tabs: Seq::empty(),
            selected_tab_id: Id(0),
            is_dragging: false,
            dragging_offset: 0,
            gap: 0,
        }
    }

    /// Whether the strip has a tab with identity `id`.
    pub open spec fn has_tab(self, id: Id) -> bool {
        exists|j: int| 0 <= j < self.tabs.len() && (#[trigger] self.tabs[j]).id == id
    }

    /// The place of the first tab with identity `id`.
    pub open spec fn place_of(self, id: Id) -> int {
        choose|i: int|
            0 <= i < self.tabs.len() && (#[trigger] self.tabs[i]).id == id && forall|j: int|
                0 <= j < i ==> (#[trigger] self.tabs[j]).id != id
    }

    /// The strip with every tab at its place: the first at the left edge,
    /// each other one gap behind the tab before it.
    pub open spec fn laid_out(self) -> TabModel {
        TabModel {
            tabs: Seq::new(
                self.tabs.len(),
                |k: int|
                    TabItem { offset: sat(offset_at(self.tabs, self.gap, k)) as i64, ..self.tabs[k] },
            ),
            ..self
        }
    }

    /// The strip after the tab `id` has been declared with the width
    /// `width`: the first tab ever declared is selected; a tab that the
    /// strip has gets the width; one that it lacks joins at the end, at
    /// offset zero until the strip is laid out again.
    pub open spec fn touched(self, id: Id, width: u32) -> TabModel {
        let selected = if self.tabs.len() == 0 {
            id
        } else {
            self.selected_tab_id
        };
        if self.has_tab(id) {
            TabModel {
                selected_tab_id: selected,
                tabs: self.tabs.update(
                    self.place_of(id),
                    TabItem { width, ..self.tabs[self.place_of(id)] },
                ),
                ..self
            }
        } else {
            TabModel {
                selected_tab_id: selected,
                tabs: self.tabs.push(TabItem { id, width, offset: 0 }),
                ..self
            }
        }
    }

    /// The rectangle of the tab at place `indx`, as high as the strip.
    pub open spec fn tab_rect(self, indx: int) -> Rect {
        Rect {
            min: Point {
                x: sat(self.bar_rect.min.x + self.tabs[indx].offset) as i64,
                y: self.bar_rect.min.y,
            },
            max: Point {
                x: sat(
                    sat(self.bar_rect.min.x + self.tabs[indx].offset) + self.tabs[indx].width,
                ) as i64,
                y: self.bar_rect.max.y,
            },
        }
    }

    /// Whether the frame starts a drag of the strip: the tab is dragged,
    /// holds the press, and no drag is under way.
    pub open spec fn drag_starts(self, dragging: bool, holds: bool) -> bool {
        dragging && holds && !self.is_dragging
    }

    /// Where the left edge of the tab at place `indx` is in this frame,
    /// bounds of the strip apart: at the pointer plus the recorded distance
    /// while the tab is dragged, else at rest.
    pub open spec fn item_x(
        self,
        indx: int,
        pressed: bool,
        dragging: bool,
        holds: bool,
        button_down: bool,
        pointer_x: i64,
    ) -> int {
        let after = self.after_signals(indx, pressed, dragging, holds, button_down, pointer_x);
        if after.is_dragging && after.selected_tab_id == self.tabs[indx].id {
            sat(after.dragging_offset + pointer_x)
        } else {
            sat(self.bar_rect.min.x + self.tabs[indx].offset)
        }
    }

    /// The strip after the signals of the tab at place `indx` have been
    /// taken in, before any tab changes its place. A press selects the tab.
    /// A drag that starts selects it too and records the distance from the
    /// pointer to the tab's left edge. A drag under way ends when the button
    /// is up, seen from the tab that was selected when the frame began.
    pub open spec fn after_signals(
        self,
        indx: int,
        pressed: bool,
        dragging: bool,
        holds: bool,
        button_down: bool,
        pointer_x: i64,
    ) -> TabModel {
        let tab = self.tabs[indx];
        let starts = self.drag_starts(dragging, holds);
        let stops = self.selected_tab_id == tab.id && !button_down && (self.is_dragging || starts);
        TabModel {
            selected_tab_id: if starts || pressed {
                tab.id
            } else {
                self.selected_tab_id
            },
            dragging_offset: if starts {
                sat(sat(self.bar_rect.min.x + tab.offset) - pointer_x) as i64
            } else {
                self.dragging_offset
            },
            is_dragging: (self.is_dragging || starts) && !stops,
            ..self
        }
    }

    /// The place at which the tab at place `indx` belongs in this frame:
    /// its own, unless it was selected when the frame began; then the
    /// number of other tabs that lie before where it is now.
    pub open spec fn target(
        self,
        indx: int,
        pressed: bool,
        dragging: bool,
        holds: bool,
        button_down: bool,
        pointer_x: i64,
    ) -> int {
        if self.selected_tab_id == self.tabs[indx].id {
            count_before(
                self.tabs,
                self.bar_rect.min.x as int,
                self.item_x(indx, pressed, dragging, holds, button_down, pointer_x),
                self.tabs[indx].width as int,
                indx,
                self.tabs.len() as int,
            )
        } else {
            indx
        }
    }

    /// The strip after one frame of the tab at place `indx`.
    pub open spec fn after_drag(
        self,
        indx: int,
        pressed: bool,
        dragging: bool,
        holds: bool,
        button_down: bool,
        pointer_x: i64,
    ) -> TabModel {
        TabModel {
            tabs: moved(
                self.tabs,
                indx,
                self.target(indx, pressed, dragging, holds, button_down, pointer_x),
            ),
            ..self.after_signals(indx, pressed, dragging, holds, button_down, pointer_x)
        }
    }
}

impl TabBar {
    /// An idle strip without tabs.
    pub fn new() -> (tb: TabBar)
        ensures
            tb@ == TabModel::empty(),
    {
        TabBar {
            id: Id(0),
            panel_id: Id(0),
            bar_rect: Rect { min: Point { x: 0, y: 0 }, max: Point { x: 0, y: 0 } },
            tabs: Vec::new(),
            selected_tab_id: Id(0),
            is_dragging: false,
            dragging_offset: 0,
            gap: 0,
        }
    }

    /// The place of the first tab with identity `id`, if the strip has one.
    pub fn position(&self, id: Id) -> (r: Option<usize>)
        ensures
            match r {
                Some(i) => self@.has_tab(id) && i == self@.place_of(id) && i < self.tabs.len()
                    && self.tabs[i as int].id == id,
                None => !self@.has_tab(id),
            },
    {
        let mut i: usize = 0;
        while i < self.tabs.len()
            invariant
                i <= self.tabs.len(),
                forall|j: int| 0 <= j < i ==> (#[trigger] self.tabs[j]).id != id,
            decreases self.tabs.len() - i,
        {
            if self.tabs[i].id.0 == id.0 {
                proof {
                    let m = self@;
                    assert(m.tabs[i as int].id == id);
                    let c = m.place_of(id);
                    assert(0 <= c < m.tabs.len() && m.tabs[c].id == id && forall|j: int|
                        0 <= j < c ==> (#[trigger] m.tabs[j]).id != id);
                    assert(c == i) by {
                        if c < i {
                            assert(self.tabs[c].id != id);
                        }
                        if i < c {
                            assert(m.tabs[i as int].id != id);
                        }
                    }
                }
                return Some(i);
            }
            i = i + 1;
        }
        None
    }

    /// Declares the tab `id` with the width `width` and returns its place,
    /// if the strip had the tab already.
    pub fn touch(&mut self, id: Id, width: u32) -> (r: Option<usize>)
        ensures
            final(self)@ == old(self)@.touched(id, width),
            match r {
                Some(i) => old(self)@.has_tab(id) && i == old(self)@.place_of(id)
                    && i < old(self).tabs.len() && final(self).tabs.len() == old(self).tabs.len()
                    && final(self).tabs[i as int] == (TabItem { id, width, offset: old(self).tabs[i as int].offset }),
                None => !old(self)@.has_tab(id),
            },
    {
        if self.tabs.len() == 0 {
            self.selected_tab_id = id;
        }
        let found = self.position(id);
        match found {
            Some(i) => {
                let tab = self.tabs[i];
                self.tabs.set(i, TabItem { width, ..tab });
            },
            None => {
                self.tabs.push(TabItem { id, width, offset: 0 });
            },
        }
        found
    }

    /// The rectangle of the tab at place `indx`, as high as the strip.
    pub fn tab_rect(&self, indx: usize) -> (r: Rect)
        requires
            indx < self.tabs.len(),
        ensures
            r == self@.tab_rect(indx as int),
    {
        let tab = self.tabs[indx];
        let x: i64 = sat_add(self.bar_rect.min.x, tab.offset);
        Rect {
            min: Point { x, y: self.bar_rect.min.y },
            max: Point { x: sat_add(x, tab.width as i64), y: self.bar_rect.max.y },
        }
    }

    /// Gives every tab its place in the strip: the first begins at the
    /// strip's left edge, each other one gap behind the tab before it.
    /// Offsets saturate. Nothing else changes.
    pub fn layout_tabs(&mut self)
        ensures
            final(self)@ == old(self)@.laid_out(),
    {
        let ghost before = self.tabs@;
        let gap = self.gap;
        let n: usize = self.tabs.len();
        let mut offset: i64 = 0;
        let mut k: usize = 0;
        while k < n
            invariant
                self.tabs.len() == n,
                before.len() == n,
                k <= n,
                gap == self.gap,
                offset == sat(offset_at(before, gap, k as int)),
                offset_at(before, gap, k as int) >= 0,
                forall|t: int|
                    0 <= t < k ==> #[trigger] self.tabs[t] == (TabItem {
                        offset: sat(offset_at(before, gap, t)) as i64,
                        ..before[t]
                    }),
                forall|t: int| k <= t < n ==> #[trigger] self.tabs[t] == before[t],
                self.id == old(self).id,
                self.panel_id == old(self).panel_id,
                self.bar_rect == old(self).bar_rect,
                self.selected_tab_id == old(self).selected_tab_id,
                self.is_dragging == old(self).is_dragging,
                self.dragging_offset == old(self).dragging_offset,
                self.gap == old(self).gap,
            decreases n - k,
        {
            let tab = self.tabs[k];
            self.tabs.set(k, TabItem { offset, ..tab });
            offset = sat_add(sat_add(offset, tab.width as i64), gap as i64);
            k = k + 1;
        }
        proof {
            assert(self.tabs@ =~= old(self)@.laid_out().tabs);
        }
    }

    /// The place at which a dragged tab belongs: the number of other tabs
    /// that lie before it. The dragged tab comes from place `indx`, its left
    /// edge is at `x` in the coordinates of the strip's rectangle, and it is
    /// `width` wide.
    pub fn get_insert_pos(&self, x: i64, width: i64, indx: usize) -> (r: usize)
        ensures
            r == count_before(
                self.tabs@,
                self.bar_rect.min.x as int,
                x as int,
                width as int,
                indx as int,
                self.tabs.len() as int,
            ),
            indx < self.tabs.len() ==> r < self.tabs.len(),
            r <= self.tabs.len(),
    {
        let origin: i64 = self.bar_rect.min.x;
        let n: usize = self.tabs.len();
        let mut count: usize = 0;
        let mut j: usize = 0;
        while j < n
            invariant
                n == self.tabs.len(),
                origin == self.bar_rect.min.x,
                j <= n,
                count == count_before(
                    self.tabs@,
                    origin as int,
                    x as int,
                    width as int,
                    indx as int,
                    j as int,
                ),
                count <= j,
            decreases n - j,
        {
            proof {
                lemma_count_before_bounds(
                    self.tabs@,
                    origin as int,
                    x as int,
                    width as int,
                    indx as int,
                    j as int,
                );
            }
            if j != indx {
                let t = self.tabs[j];
                let middle_twice: i128 = 2 * (origin as i128 + t.offset as i128) + t.width as i128;
                let before = if j < indx {
                    middle_twice <= 2 * (x as i128)
                } else {
                    middle_twice < 2 * (x as i128 + width as i128)
                };
                if before {
                    count = count + 1;
                }
            }
            j = j + 1;
        }
        proof {
            lemma_count_before_bounds(
                self.tabs@,
                origin as int,
                x as int,
                width as int,
                indx as int,
                n as int,
            );
        }
        count
    }

    /// Takes the tab at `from` out and puts it in again at `to`; the others
    /// keep their order. Places that the strip does not have change nothing.
    pub fn move_tab(&mut self, from: usize, to: usize)
        ensures
            final(self)@ == (TabModel {
                tabs: moved(old(self).tabs@, from as int, to as int),
                ..old(self)@
            }),
    {
        if from < self.tabs.len() && to < self.tabs.len() {
            let item = self.tabs.remove(from);
            self.tabs.insert(to, item);
        }
    }

    /// One frame of the tab at place `indx`, given what the pointer does to
    /// it: `pressed` and `dragging` are the tab's signals, `holds` says
    /// whether the tab is the node that holds the press, `button_down`
    /// whether the button is down at all, and `pointer_x` is where the
    /// pointer is.
    ///
    /// A press selects the tab. A drag of the tab that holds the press
    /// starts a drag of the strip, unless one is under way, and records the
    /// distance from the pointer to the tab's left edge. A drag under way
    /// ends when the button is up, seen from the tab that was selected when
    /// the frame began. The dragged tab follows the pointer at the recorded
    /// distance; every other tab rests at its offset. The tab that was
    /// selected is moved to the place at which it belongs by where it is
    /// now. The result is the tab's left edge, held inside the strip.
    pub fn drag_step(
        &mut self,
        indx: usize,
        pressed: bool,
        dragging: bool,
        holds: bool,
        button_down: bool,
        pointer_x: i64,
    ) -> (visual_x: i64)
        requires
            indx < old(self).tabs.len(),
        ensures
            final(self)@ == old(self)@.after_drag(
                indx as int,
                pressed,
                dragging,
                holds,
                button_down,
                pointer_x,
            ),
            visual_x == held(
                old(self)@.item_x(indx as int, pressed, dragging, holds, button_down, pointer_x),
                old(self).bar_rect.min.x as int,
                sat(old(self).bar_rect.max.x - old(self).tabs[indx as int].width),
            ),
    {
        let tab = self.tabs[indx];
        let was_selected = self.selected_tab_id.0 == tab.id.0;
        let rest_x: i64 = sat_add(self.bar_rect.min.x, tab.offset);
        if pressed {
            self.selected_tab_id = tab.id;
        }
        if dragging && holds && !self.is_dragging {
            self.is_dragging = true;
            self.selected_tab_id = tab.id;
            self.dragging_offset = sat_sub(rest_x, pointer_x);
        }
        if was_selected && !button_down && self.is_dragging {
            self.is_dragging = false;
        }
        let item_x: i64 = if self.is_dragging && self.selected_tab_id.0 == tab.id.0 {
            sat_add(self.dragging_offset, pointer_x)
        } else {
            rest_x
        };
        if was_selected {
            let to = self.get_insert_pos(item_x, tab.width as i64, indx);
            self.move_tab(indx, to);
        } else {
            proof {
                assert(self.tabs@.remove(indx as int).insert(indx as int, self.tabs@[indx as int])
                    =~= self.tabs@);
            }
        }
        let lo: i64 = self.bar_rect.min.x;
        let hi: i64 = sat_sub(self.bar_rect.max.x, tab.width as i64);
        let raised: i64 = if item_x < lo {
            lo
        } else {
            item_x
        };
        if raised > hi {
            hi
        } else {
            raised
        }
    }
}

} // verus!
