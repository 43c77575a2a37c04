use vstd::prelude::*;

verus! {

/// Terminal dimensions, in character cells and in pixels.
///
/// Zero components are tolerated: every derived quantity clamps its divisor
/// (and the resulting pixels-per-cell figure) to at least 1, so no division
/// by zero can arise downstream.
#[derive(Clone, Copy, PartialEq, Eq, Structural)]
pub struct TerminalGeometry {
    pub cols: u16,
    pub rows: u16,
    pub px_width: u32,
    pub px_height: u32,
}

impl TerminalGeometry {
    /// Width of one character cell in pixels, clamped to at least 1.
    pub open spec fn spec_px_per_char_w(self) -> int {
        let c = if self.cols == 0 { 1int } else { self.cols as int };
        let q = self.px_width as int / c;
        if q == 0 { 1int } else { q }
    }

    /// Height of one character cell in pixels, clamped to at least 1.
    pub open spec fn spec_px_per_char_h(self) -> int {
        let r = if self.rows == 0 { 1int } else { self.rows as int };
        let q = self.px_height as int / r;
        if q == 0 { 1int } else { q }
    }

    /// Columns left for image content once `margin` columns are reserved.
    pub open spec fn spec_avail_width_cols(self, margin: u32) -> int {
        if margin >= self.cols as int { 0int } else { self.cols as int - margin }
    }

    /// Rows left for image content once `ui_rows` rows are reserved.
    pub open spec fn spec_avail_rows(self, ui_rows: u32) -> int {
        if ui_rows >= self.rows as int { 0int } else { self.rows as int - ui_rows }
    }

    pub fn px_per_char_w(&self) -> (r: u32)
        ensures
            r as int == self.spec_px_per_char_w(),
            r >= 1,
    {
        let c: u32 = if self.cols == 0 { 1 } else { self.cols as u32 };
        let q: u32 = self.px_width / c;
        if q == 0 { 1 } else { q }
    }

    pub fn px_per_char_h(&self) -> (r: u32)
        ensures
            r as int == self.spec_px_per_char_h(),
            r >= 1,
    {
        let r0: u32 = if self.rows == 0 { 1 } else { self.rows as u32 };
        let q: u32 = self.px_height / r0;
        if q == 0 { 1 } else { q }
    }

    pub fn avail_width_cols(&self, margin: u32) -> (r: u32)
        ensures
            r as int == self.spec_avail_width_cols(margin),
            r <= u16::MAX,
    {
        if margin >= self.cols as u32 { 0 } else { self.cols as u32 - margin }
    }

    pub fn avail_rows(&self, ui_rows: u32) -> (r: u32)
        ensures
            r as int == self.spec_avail_rows(ui_rows),
            r <= u16::MAX,
    {
        if ui_rows >= self.rows as u32 { 0 } else { self.rows as u32 - ui_rows }
    }
}

/// The pixel dimensions assumed when the terminal reports none: a cell of
/// 8 by 16 pixels, the common monospace metric.
pub fn fallback_pixel_size(cols: u16, rows: u16) -> (r: (u32, u32))
    ensures
        r.0 == cols as int * 8,
        r.1 == rows as int * 16,
{
    ((cols as u32) * 8, (rows as u32) * 16)
}

} // verus!
