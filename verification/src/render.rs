//! Geometry and drawing-command primitives.
//!
//! Domain-space points carry fixed-point coordinates (micro-units).  Screen
//! positions are exact rationals `num / den`: the affine domain-to-screen map
//! divides by the current bounds span, and keeping the quotient symbolic
//! makes the mapping exact, monotonic and invertible.  The engine never draws
//! directly; it emits [`DrawCmd`] values for an external rasterizer.

use vstd::prelude::*;

verus! {

/// A point in domain (signal) space, in fixed-point micro-units.
#[derive(Clone, Copy, PartialEq, Eq, Structural, Debug)]
pub struct Point {
    pub x: i64,
    pub y: i64,
}

/// The domain origin `(0, 0)`: the implicit start of every polyline.
pub open spec fn origin_spec() -> Point {
    Point { x: 0, y: 0 }
}

/// An RGB color with each channel in tenths (10 = full intensity).
#[derive(Clone, Copy, PartialEq, Eq, Structural, Debug)]
pub struct Color {
    pub r: u8,
    pub g: u8,
    pub b: u8,
}

/// One screen coordinate as an exact rational `num / den`, `den > 0`.
#[derive(Clone, Copy, PartialEq, Eq, Structural, Debug)]
pub struct ScreenCoord {
    pub num: i64,
    pub den: i64,
}

/// A position on the canvas, one rational per axis.
#[derive(Clone, Copy, PartialEq, Eq, Structural, Debug)]
pub struct ScreenPt {
    pub x: ScreenCoord,
    pub y: ScreenCoord,
}

/// The screen coordinate for a whole number of canvas units.
pub open spec fn whole_coord(units: int) -> ScreenCoord {
    ScreenCoord { num: units as i64, den: 1 }
}

/// An axis tick label: a screen position and its ASCII text.
pub struct Label {
    pub x: ScreenCoord,
    pub y: ScreenCoord,
    pub text: Vec<u8>,
}

/// The mathematical value of a [`Label`]: same position, text as a sequence.
pub struct LabelModel {
    pub x: ScreenCoord,
    pub y: ScreenCoord,
    pub text: Seq<u8>,
}

impl View for Label {
    type V = LabelModel;

    open spec fn view(&self) -> LabelModel {
        LabelModel { x: self.x, y: self.y, text: self.text@ }
    }
}

impl Label {
    /// An independent copy of this label, byte for byte.
    pub fn duplicate(&self) -> (r: Label)
        ensures
            r@ == self@,
    {
        let mut text: Vec<u8> = Vec::new();
        let n = self.text.len();
        let mut i: usize = 0;
        while i < n
            invariant
                i <= n,
                text@ == self.text@.take(i as int),
            decreases n - i,
        {
            text.push(self.text[i]);
            proof {
                assert(text@ =~= self.text@.take(i as int + 1));
            }
            i += 1;
        }
        proof {
            assert(text@ =~= self.text@);
        }
        Label { x: self.x, y: self.y, text }
    }
}

/// One command for the external rasterizer.
pub enum DrawCmd {
    /// Clear the canvas.
    Clear,
    /// Set the current drawing color for subsequent commands.
    SetColor(Color),
    /// Draw a line segment between two screen positions.
    Line(ScreenPt, ScreenPt),
    /// Draw a text label.
    Text(Label),
}

/// The mathematical value of a [`DrawCmd`].
pub enum DrawCmdModel {
    Clear,
    SetColor(Color),
    Line(ScreenPt, ScreenPt),
    Text(LabelModel),
}

impl View for DrawCmd {
    type V = DrawCmdModel;

    open spec fn view(&self) -> DrawCmdModel {
        match self {
            DrawCmd::Clear => DrawCmdModel::Clear,
            DrawCmd::SetColor(c) => DrawCmdModel::SetColor(*c),
            DrawCmd::Line(a, b) => DrawCmdModel::Line(*a, *b),
            DrawCmd::Text(l) => DrawCmdModel::Text(l@),
        }
    }
}

/// The sequence of command values that a command list stands for.
pub open spec fn cmds_view(s: Seq<DrawCmd>) -> Seq<DrawCmdModel> {
    s.map_values(|c: DrawCmd| c@)
}

/// The sequence of label values that a label list stands for.
pub open spec fn labels_view(s: Seq<Label>) -> Seq<LabelModel> {
    s.map_values(|l: Label| l@)
}

} // verus!
