//! Click regions, recorded by whatever paints them and consumed by the app's
//! mouse dispatch.
//!
//! Regions are recorded in paint order, and a click resolves to the last one
//! covering the cell: the painter's algorithm, run over rectangles instead of
//! pixels. A container can bracket what its children record with the box it
//! painted, so a region is cut down to the clip in force when it is recorded.

use vstd::prelude::*;

verus! {

/// A box of cells on the screen.
#[derive(Clone, Copy, PartialEq, Eq, Hash, Debug)]
pub struct Rect {
    pub x: u16,
    pub y: u16,
    pub width: u16,
    pub height: u16,
}

/// The largest cell coordinate.
pub const MAX_CELL: u16 = 65535;

/// Whether the cell at (`col`, `row`) lies inside `r`.
pub open spec fn covers(r: Rect, col: int, row: int) -> bool {
    &&& r.x <= col < r.x + r.width
    &&& r.y <= row < r.y + r.height
}

/// Whether `r` ends on the screen: its right and bottom edges are cell
/// coordinates too.
pub open spec fn on_screen(r: Rect) -> bool {
    r.x + r.width <= MAX_CELL && r.y + r.height <= MAX_CELL
}

/// The larger of two integers.
pub open spec fn larger(a: int, b: int) -> int {
    if a >= b {
        a
    } else {
        b
    }
}

/// The smaller of two integers.
pub open spec fn smaller(a: int, b: int) -> int {
    if a <= b {
        a
    } else {
        b
    }
}

/// `v` kept within `low..=high`.
pub open spec fn clamped(v: int, low: int, high: int) -> int {
    if v < low {
        low
    } else if v > high {
        high
    } else {
        v
    }
}

/// The cells `a` and `b` have in common, when they share any.
pub open spec fn overlap(a: Rect, b: Rect) -> Option<Rect> {
    let x = larger(a.x as int, b.x as int);
    let y = larger(a.y as int, b.y as int);
    let right = smaller(a.x + a.width, b.x + b.width);
    let bottom = smaller(a.y + a.height, b.y + b.height);
    if right > x && bottom > y {
        Some(Rect { x: x as u16, y: y as u16, width: (right - x) as u16, height: (bottom - y) as u16 })
    } else {
        None
    }
}

/// The rect between canvas edges that may lie partly off the screen,
/// cropped to the cells that are on it.
pub open spec fn cropped(left: int, top: int, right: int, bottom: int) -> Rect {
    let x = clamped(left, 0, MAX_CELL as int);
    let y = clamped(top, 0, MAX_CELL as int);
    Rect {
        x: x as u16,
        y: y as u16,
        width: larger(clamped(right, 0, MAX_CELL as int) - x, 0) as u16,
        height: larger(clamped(bottom, 0, MAX_CELL as int) - y, 0) as u16,
    }
}

impl Rect {
    /// Whether the cell at (`col`, `row`) lies inside this rect.
    pub fn contains(&self, col: u16, row: u16) -> (inside: bool)
        requires
            on_screen(*self),
        ensures
            inside == covers(*self, col as int, row as int),
    {
        col >= self.x && col < self.x + self.width && row >= self.y && row < self.y + self.height
    }

    /// The cells two rects have in common: `None` when they share none, which
    /// is how a region laid out entirely past its container's edge stops
    /// being a region at all.
    pub fn intersect(&self, other: Rect) -> (common: Option<Rect>)
        ensures
            common == overlap(*self, other),
            common matches Some(r) ==> on_screen(r) || !(on_screen(*self) && on_screen(other)),
    {
        let x = if self.x >= other.x {
            self.x
        } else {
            other.x
        };
        let y = if self.y >= other.y {
            self.y
        } else {
            other.y
        };
        let a_right = self.x as u32 + self.width as u32;
        let b_right = other.x as u32 + other.width as u32;
        let right = if a_right <= b_right {
            a_right
        } else {
            b_right
        };
        let a_bottom = self.y as u32 + self.height as u32;
        let b_bottom = other.y as u32 + other.height as u32;
        let bottom = if a_bottom <= b_bottom {
            a_bottom
        } else {
            b_bottom
        };
        if right > x as u32 && bottom > y as u32 {
            Some(Rect { x, y, width: (right - x as u32) as u16, height: (bottom - y as u32) as u16 })
        } else {
            None
        }
    }

    /// A rect from canvas edges that may sit partly off the top or left of
    /// the screen, cropped to what is on it.
    pub fn from_edges(left: i32, top: i32, right: i32, bottom: i32) -> (r: Rect)
        ensures
            r == cropped(left as int, top as int, right as int, bottom as int),
            on_screen(r),
    {
        let x = clamp_cell(left);
        let y = clamp_cell(top);
        let r_edge = clamp_cell(right);
        let b_edge = clamp_cell(bottom);
        let width: i32 = if r_edge - x > 0 {
            r_edge - x
        } else {
            0
        };
        let height: i32 = if b_edge - y > 0 {
            b_edge - y
        } else {
            0
        };
        Rect { x: x as u16, y: y as u16, width: width as u16, height: height as u16 }
    }
}

/// `v` kept within the cell coordinates.
fn clamp_cell(v: i32) -> (c: i32)
    ensures
        c == clamped(v as int, 0, MAX_CELL as int),
{
    if v < 0 {
        0
    } else if v > 65535 {
        65535
    } else {
        v
    }
}

/// What a click on a region does.
#[derive(Clone, PartialEq, Eq, Debug)]
pub enum HitTarget {
    Tab(usize),
    Item(usize),
    Link(String),
    /// The reader's close button.
    Close,
    /// The open dialog's own frame: it swallows the click.
    Dialog,
    /// The screen around an open dialog: a click there asks for the dialog
    /// to go.
    Dismiss,
}

/// A copy of a target.
fn copy_target(target: &HitTarget) -> (copy: HitTarget)
    ensures
        copy == *target,
{
    match target {
        HitTarget::Tab(i) => HitTarget::Tab(*i),
        HitTarget::Item(i) => HitTarget::Item(*i),
        HitTarget::Link(url) => HitTarget::Link(url.clone()),
        HitTarget::Close => HitTarget::Close,
        HitTarget::Dialog => HitTarget::Dialog,
        HitTarget::Dismiss => HitTarget::Dismiss,
    }
}

/// The regions one frame painted, in paint order, and the clips in force
/// while it paints, innermost last.
pub struct HitMap {
    regions: Vec<(Rect, HitTarget)>,
    clips: Vec<Rect>,
}

impl HitMap {
    /// The regions, in paint order.
    pub closed spec fn regions(&self) -> Seq<(Rect, HitTarget)> {
        self.regions@
    }

    /// The clips in force, innermost last.
    pub closed spec fn clips(&self) -> Seq<Rect> {
        self.clips@
    }

    /// Every region and every clip ends on the screen.
    pub open spec fn well_formed(&self) -> bool {
        &&& forall|i: int| 0 <= i < self.regions().len() ==> on_screen(#[trigger] self.regions()[i].0)
        &&& forall|i: int| 0 <= i < self.clips().len() ==> on_screen(#[trigger] self.clips()[i])
    }

    /// The clip a region recorded now is cut down to.
    pub open spec fn clip(&self) -> Option<Rect> {
        if self.clips().len() == 0 {
            None
        } else {
            Some(self.clips().last())
        }
    }

    /// Whether region `i` covers the cell.
    pub open spec fn hits(&self, i: int, col: int, row: int) -> bool {
        covers(self.regions()[i].0, col, row)
    }

    /// Nothing recorded, no clip in force.
    pub fn new() -> (map: Self)
        ensures
            map.regions() == Seq::<(Rect, HitTarget)>::empty(),
            map.clips() == Seq::<Rect>::empty(),
            map.well_formed(),
    {
        HitMap { regions: Vec::new(), clips: Vec::new() }
    }

    /// Drops what the previous frame recorded, before this one paints.
    pub fn clear(&mut self)
        ensures
            final(self).regions() == Seq::<(Rect, HitTarget)>::empty(),
            final(self).clips() == Seq::<Rect>::empty(),
            final(self).well_formed(),
    {
        self.regions = Vec::new();
        self.clips = Vec::new();
    }

    /// Records the box a component painted as a click region for `target`,
    /// cut down to the clip in force; a region clipped away entirely, or one
    /// with no target, records nothing.
    pub fn record(&mut self, rect: Rect, target: Option<HitTarget>)
        requires
            old(self).well_formed(),
            on_screen(rect),
        ensures
            final(self).well_formed(),
            final(self).clips() == old(self).clips(),
            final(self).regions() == match target {
                None => old(self).regions(),
                Some(t) => match old(self).clip() {
                    None => old(self).regions().push((rect, t)),
                    Some(c) => match overlap(rect, c) {
                        Some(r) => old(self).regions().push((r, t)),
                        None => old(self).regions(),
                    },
                },
            },
    {
        let target = match target {
            Some(t) => t,
            None => return,
        };
        let clipped = if self.clips.len() == 0 {
            Some(rect)
        } else {
            let last = self.clips.len() - 1;
            proof {
                assert(on_screen(self.clips@[last as int]));
            }
            rect.intersect(self.clips[last])
        };
        match clipped {
            Some(r) => {
                self.regions.push((r, target));
                proof {
                    assert forall|i: int| 0 <= i < self.regions().len() implies on_screen(
                        #[trigger] self.regions()[i].0,
                    ) by {
                        if i < old(self).regions().len() {
                            assert(self.regions()[i] == old(self).regions()[i]);
                        }
                    }
                }
            },
            None => {},
        }
    }

    /// Clips what the children of a container record to the box it painted,
    /// itself cut down to the clip already in force. A container clipped
    /// away entirely lets nothing through, which an empty rect says exactly.
    pub fn push_clip(&mut self, rect: Rect)
        requires
            old(self).well_formed(),
            on_screen(rect),
        ensures
            final(self).well_formed(),
            final(self).regions() == old(self).regions(),
            final(self).clips() == old(self).clips().push(
                match old(self).clip() {
                    None => rect,
                    Some(c) => match overlap(rect, c) {
                        Some(r) => r,
                        None => Rect { x: 0, y: 0, width: 0, height: 0 },
                    },
                },
            ),
    {
        let clipped = if self.clips.len() == 0 {
            Some(rect)
        } else {
            let last = self.clips.len() - 1;
            proof {
                assert(on_screen(self.clips@[last as int]));
            }
            rect.intersect(self.clips[last])
        };
        let clip = match clipped {
            Some(r) => r,
            None => Rect { x: 0, y: 0, width: 0, height: 0 },
        };
        self.clips.push(clip);
        proof {
            assert(self.clips()[self.clips().len() - 1] == clip);
            assert forall|i: int| 0 <= i < self.regions().len() implies on_screen(
                #[trigger] self.regions()[i].0,
            ) by {
                assert(self.regions()[i] == old(self).regions()[i]);
            }
            assert(on_screen(clip));
            assert forall|i: int| 0 <= i < self.clips().len() implies on_screen(
                #[trigger] self.clips()[i],
            ) by {
                if i < old(self).clips().len() {
                    assert(self.clips()[i] == old(self).clips()[i]);
                }
            }
        }
    }

    /// Ends the innermost clip, once its container's children have painted.
    pub fn pop_clip(&mut self)
        requires
            old(self).well_formed(),
        ensures
            final(self).well_formed(),
            final(self).regions() == old(self).regions(),
            final(self).clips() == if old(self).clips().len() == 0 {
                old(self).clips()
            } else {
                old(self).clips().drop_last()
            },
    {
        if self.clips.len() > 0 {
            self.clips.pop();
            proof {
                assert forall|i: int| 0 <= i < self.regions().len() implies on_screen(
                    #[trigger] self.regions()[i].0,
                ) by {
                    assert(self.regions()[i] == old(self).regions()[i]);
                }
                assert forall|i: int| 0 <= i < self.clips().len() implies on_screen(
                    #[trigger] self.clips()[i],
                ) by {
                    assert(self.clips()[i] == old(self).clips()[i]);
                }
            }
        }
    }

    /// The target under a cell: that of the last region painted over it.
    pub fn hit_test(&self, col: u16, row: u16) -> (target: Option<HitTarget>)
        requires
            self.well_formed(),
        ensures
            target is None <==> forall|i: int| 0 <= i < self.regions().len() ==> !self.hits(i, col as int, row as int),
            target matches Some(t) ==> exists|i: int|
                0 <= i < self.regions().len() && self.hits(i, col as int, row as int)
                    && self.regions()[i].1 == t && forall|j: int|
                    i < j < self.regions().len() ==> !self.hits(j, col as int, row as int),
    {
        let mut i = self.regions.len();
        while i > 0
            invariant
                self.well_formed(),
                i <= self.regions().len(),
                forall|j: int| i <= j < self.regions().len() ==> !self.hits(j, col as int, row as int),
            decreases i,
        {
            i = i - 1;
            proof {
                assert(on_screen(self.regions()[i as int].0));
            }
            if self.regions[i].0.contains(col, row) {
                let target = copy_target(&self.regions[i].1);
                proof {
                    assert(self.hits(i as int, col as int, row as int));
                    assert(self.regions()[i as int].1 == target);
                }
                return Some(target);
            }
        }
        None
    }
}

/// The last region painted wins: a click on a cell that the latest region
/// covers reaches that region's target, whatever was painted under it.
pub proof fn lemma_last_painted_wins(map: HitMap, col: int, row: int)
    requires
        map.well_formed(),
        map.regions().len() > 0,
        map.hits(map.regions().len() - 1, col, row),
    ensures
        forall|i: int|
            #![trigger map.hits(i, col, row)]
            (0 <= i < map.regions().len() && map.hits(i, col, row) && (forall|j: int|
                i < j < map.regions().len() ==> !map.hits(j, col, row))) ==> i == map.regions().len() - 1,
{
}

/// A region never reaches past the clip in force when it was recorded: a
/// cell inside what was recorded lies inside both the painted box and the
/// clip.
pub proof fn lemma_clipped_region_stays_inside(rect: Rect, clip: Rect, col: int, row: int)
    requires
        (overlap(rect, clip) is Some),
    ensures
        covers(overlap(rect, clip)->0, col, row) <==> covers(rect, col, row) && covers(clip, col, row),
{
}

} // verus!
