//! Inline images: a cell box reserved for the web front-end to fill. The
//! app never draws artwork itself; it works out how many cells a picture
//! may take and records where each box landed, and the host lays the real
//! file over it.

use crate::site_path::SitePath;
use vstd::prelude::*;

verus! {

/// Card and project-row thumbnails, in cells.
pub const THUMBNAIL: (u16, u16) = (32, 8);

/// The detail dialog's hero, and the box every recorded size is fitted to.
pub const HERO: (u16, u16) = (56, 16);

/// The stacking layer of the pane's images.
pub const LAYER_PANE: u8 = 0;

/// The stacking layer of an open dialog's images.
pub const LAYER_DIALOG: u8 = 1;

/// The box an image may fill inside a column `width` cells wide: the bounds
/// the design asks for, narrowed to the column when the column is the
/// smaller, and at least one column wide.
pub open spec fn fitted(width: int, bounds: (u16, u16)) -> (u16, u16) {
    let column: int = if width > u16::MAX {
        u16::MAX as int
    } else {
        width
    };
    let cols: int = if bounds.0 < column {
        bounds.0 as int
    } else {
        column
    };
    ((if cols < 1 {
        1
    } else {
        cols
    }) as u16, bounds.1)
}

/// The box an image may fill inside a column `width` cells wide.
pub fn fit_width(width: usize, bounds: (u16, u16)) -> (fit: (u16, u16))
    ensures
        fit == fitted(width as int, bounds),
{
    let column: u16 = if width > 65535 {
        65535
    } else {
        width as u16
    };
    let (max_cols, max_rows) = bounds;
    let cols = if max_cols < column {
        max_cols
    } else {
        column
    };
    (if cols < 1 {
        1
    } else {
        cols
    }, max_rows)
}

/// A card's thumbnail box at a given terminal width.
pub fn thumbnail_bounds(cols: u16) -> (fit: (u16, u16))
    ensures
        fit == fitted(crate::tui::content_cols(cols), THUMBNAIL),
{
    fit_width(crate::tui::content_width(cols), THUMBNAIL)
}

/// The artwork box inside a post: the blog's column, at most the hero.
pub fn reader_bounds(cols: u16) -> (fit: (u16, u16))
    ensures
        fit == fitted(crate::tui::column_cols(cols), HERO),
{
    fit_width(crate::tui::blog_column_width(cols), HERO)
}

/// A drawn image's cell rectangle: where the whole picture starts (which
/// goes negative when it is scrolled part-way off the top), its size, and
/// the part of it that survived the pane's clipping.
#[derive(Clone)]
pub struct Region {
    pub url: SitePath,
    pub x: i16,
    pub y: i16,
    pub cols: u16,
    pub rows: u16,
    pub visible_x: i16,
    pub visible_y: i16,
    pub visible_cols: u16,
    pub visible_rows: u16,
}

/// A difference of edges as a count of cells: nothing when negative, at
/// most the largest cell count.
pub open spec fn side(value: int) -> u16 {
    (if value < 0 {
        0
    } else if value > u16::MAX {
        u16::MAX as int
    } else {
        value
    }) as u16
}

/// What the clipping took off each side of `r`, as `(top, right, bottom,
/// left)`.
pub open spec fn insets_of(r: Region) -> (u16, u16, u16, u16) {
    (
        side(r.visible_y - r.y),
        side((r.x + r.cols) - (r.visible_x + r.visible_cols)),
        side((r.y + r.rows) - (r.visible_y + r.visible_rows)),
        side(r.visible_x - r.x),
    )
}

/// A difference of edges as a count of cells.
fn side_of(value: i32) -> (cells: u16)
    ensures
        cells == side(value as int),
{
    if value < 0 {
        0
    } else if value > 65535 {
        65535
    } else {
        value as u16
    }
}

impl Region {
    /// What the pane's clipping took off each side, in cells, as `(top,
    /// right, bottom, left)`: the overlay crops the full-resolution file by
    /// exactly this.
    pub fn insets(&self) -> (sides: (u16, u16, u16, u16))
        ensures
            sides == insets_of(*self),
    {
        let x = self.x as i32;
        let y = self.y as i32;
        let right_edge = x + self.cols as i32;
        let bottom_edge = y + self.rows as i32;
        let visible_x = self.visible_x as i32;
        let visible_y = self.visible_y as i32;
        let visible_right = visible_x + self.visible_cols as i32;
        let visible_bottom = visible_y + self.visible_rows as i32;
        (
            side_of(visible_y - y),
            side_of(right_edge - visible_right),
            side_of(bottom_edge - visible_bottom),
            side_of(visible_x - x),
        )
    }
}

/// A region as values.
pub open spec fn region_view(r: Region) -> (Seq<char>, i16, i16, u16, u16, i16, i16, u16, u16) {
    (r.url@, r.x, r.y, r.cols, r.rows, r.visible_x, r.visible_y, r.visible_cols, r.visible_rows)
}

/// Regions as values.
pub open spec fn regions_view(regions: Seq<Region>) -> Seq<(Seq<char>, i16, i16, u16, u16, i16, i16, u16, u16)> {
    regions.map_values(|r: Region| region_view(r))
}

/// A copy of a region.
fn copy_region(r: &Region) -> (copy: Region)
    ensures
        region_view(copy) == region_view(*r),
{
    Region {
        url: r.url.copy(),
        x: r.x,
        y: r.y,
        cols: r.cols,
        rows: r.rows,
        visible_x: r.visible_x,
        visible_y: r.visible_y,
        visible_cols: r.visible_cols,
        visible_rows: r.visible_rows,
    }
}

/// Whether some of `r` is on screen.
pub open spec fn visible(r: Region) -> bool {
    r.visible_cols > 0 && r.visible_rows > 0
}

/// Where each image of the current frame landed, and the topmost layer the
/// frame draws: only images on that layer report, since the host's overlay
/// has no stacking of its own.
pub struct ImageRegions {
    regions: Vec<Region>,
    top_layer: u8,
}

impl ImageRegions {
    /// The regions recorded this frame, in drawing order.
    pub closed spec fn recorded(&self) -> Seq<Region> {
        self.regions@
    }

    /// The topmost layer of this frame.
    pub closed spec fn top(&self) -> u8 {
        self.top_layer
    }

    /// Nothing recorded yet, the pane on top.
    pub fn new() -> (regions: Self)
        ensures
            regions.recorded() == Seq::<Region>::empty(),
            regions.top() == LAYER_PANE,
    {
        ImageRegions { regions: Vec::new(), top_layer: LAYER_PANE }
    }

    /// Drops the previous frame's rectangles, so a card that scrolled away
    /// leaves no ghost behind, and sets the frame's topmost layer.
    pub fn begin_frame(&mut self, top_layer: u8)
        ensures
            final(self).recorded() == Seq::<Region>::empty(),
            final(self).top() == top_layer,
    {
        self.regions = Vec::new();
        self.top_layer = top_layer;
    }

    /// Records where an image on `layer` was drawn: an image with no cells,
    /// or below the frame's topmost layer, records nothing.
    pub fn record(&mut self, region: Region, layer: u8)
        ensures
            final(self).top() == old(self).top(),
            final(self).recorded() == if region.cols == 0 || region.rows == 0 || layer != old(self).top() {
                old(self).recorded()
            } else {
                old(self).recorded().push(region)
            },
    {
        if region.cols == 0 || region.rows == 0 || layer != self.top_layer {
            return;
        }
        self.regions.push(region);
    }

    /// Every image with something on screen in the current frame, in
    /// drawing order.
    pub fn regions(&self) -> (shown: Vec<Region>)
        ensures
            regions_view(shown@) == regions_view(self.recorded().filter(|r: Region| visible(r))),
    {
        let ghost keep = |r: Region| visible(r);
        let mut shown: Vec<Region> = Vec::new();
        let mut i: usize = 0;
        assert(self.recorded().take(0).filter(keep) =~= Seq::<Region>::empty());
        while i < self.regions.len()
            invariant
                i <= self.recorded().len(),
                keep == (|r: Region| visible(r)),
                regions_view(shown@) == regions_view(self.recorded().take(i as int).filter(keep)),
            decreases self.regions.len() - i,
        {
            let region = &self.regions[i];
            proof {
                assert(self.recorded().take(i + 1) =~= self.recorded().take(i as int).push(*region));
                self.recorded().take(i as int).lemma_filter_push(*region, keep);
            }
            if region.visible_cols > 0 && region.visible_rows > 0 {
                let ghost before = regions_view(shown@);
                shown.push(copy_region(region));
                assert(regions_view(shown@) =~= before.push(region_view(*region)));
                assert(regions_view(self.recorded().take(i + 1).filter(keep)) =~= regions_view(
                    self.recorded().take(i as int).filter(keep),
                ).push(region_view(*region)));
            }
            i = i + 1;
        }
        assert(self.recorded().take(i as int) =~= self.recorded());
        shown
    }
}

} // verus!
