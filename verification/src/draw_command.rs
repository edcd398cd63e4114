//! Positioned drawing operations, the result of layout.
use crate::dimension::Pt;
use crate::geometry::{PtLineSegment, PtOffset, PtRect};
use vstd::prelude::*;

verus! {

/// An opaque colour.
#[derive(Clone, Copy, Debug, PartialEq, Eq, Structural)]
pub struct RgbColor {
    pub r: u8,
    pub g: u8,
    pub b: u8,
}

impl RgbColor {
    /// Black.
    #[verifier::allow_in_spec]
    pub fn black() -> RgbColor
        returns
            (RgbColor { r: 0, g: 0, b: 0 }),
    {
        RgbColor { r: 0, g: 0, b: 0 }
    }
}

/// A string owned by the caller, known to layout by its number alone.
#[derive(Clone, Copy, Debug, PartialEq, Eq, Structural)]
pub struct TextId {
    pub id: u64,
}

/// An image owned by the caller.
#[derive(Clone, Copy, Debug, PartialEq, Eq, Structural)]
pub struct ImageId {
    pub id: u64,
}

/// A filled and stroked outline owned by the caller.
#[derive(Clone, Copy, Debug, PartialEq, Eq, Structural)]
pub struct PathId {
    pub id: u64,
}

/// A font owned by the caller.
#[derive(Clone, Copy, Debug, PartialEq, Eq, Structural)]
pub struct FontId {
    pub id: u64,
}

/// One drawing operation.
#[derive(Clone, Copy, Debug, PartialEq, Eq, Structural)]
pub enum DrawCommand {
    /// A run of text with its baseline starting at `position`.
    Text { position: PtOffset, text: TextId, font: FontId, color: RgbColor },
    /// A stroked line.
    Line { line: PtLineSegment, color: RgbColor, width: Pt },
    /// A filled rectangle.
    Rect { rect: PtRect, color: RgbColor },
    /// An image stretched over a rectangle.
    Image { rect: PtRect, image: ImageId },
    /// An outline with its own origin at `rect.origin`.
    Path { rect: PtRect, path: PathId },
}

impl DrawCommand {
    /// This command moved by `(dx, dy)`.
    pub open spec fn shifted(self, dx: Pt, dy: Pt) -> DrawCommand {
        match self {
            DrawCommand::Text { position, text, font, color } => DrawCommand::Text {
                position: position.moved(dx, dy),
                text,
                font,
                color,
            },
            DrawCommand::Line { line, color, width } => DrawCommand::Line {
                line: PtLineSegment {
                    start: line.start.moved(dx, dy),
                    end: line.end.moved(dx, dy),
                },
                color,
                width,
            },
            DrawCommand::Rect { rect, color } => DrawCommand::Rect {
                rect: rect.moved(dx, dy),
                color,
            },
            DrawCommand::Image { rect, image } => DrawCommand::Image {
                rect: rect.moved(dx, dy),
                image,
            },
            DrawCommand::Path { rect, path } => DrawCommand::Path {
                rect: rect.moved(dx, dy),
                path,
            },
        }
    }

    /// Move this command by `(dx, dy)`.
    pub fn shift(&mut self, dx: Pt, dy: Pt)
        ensures
            *final(self) == old(self).shifted(dx, dy),
    {
        let moved = self.shifted_by(dx, dy);
        *self = moved;
    }

    fn shifted_by(&self, dx: Pt, dy: Pt) -> (r: DrawCommand)
        ensures
            r == self.shifted(dx, dy),
    {
        match *self {
            DrawCommand::Text { position, text, font, color } => DrawCommand::Text {
                position: position.moved(dx, dy),
                text,
                font,
                color,
            },
            DrawCommand::Line { line, color, width } => DrawCommand::Line {
                line: PtLineSegment {
                    start: line.start.moved(dx, dy),
                    end: line.end.moved(dx, dy),
                },
                color,
                width,
            },
            DrawCommand::Rect { rect, color } => DrawCommand::Rect {
                rect: rect.moved(dx, dy),
                color,
            },
            DrawCommand::Image { rect, image } => DrawCommand::Image {
                rect: rect.moved(dx, dy),
                image,
            },
            DrawCommand::Path { rect, path } => DrawCommand::Path {
                rect: rect.moved(dx, dy),
                path,
            },
        }
    }
}

/// Every command of a list moved by `(dx, dy)`.
pub open spec fn shift_all(s: Seq<DrawCommand>, dx: Pt, dy: Pt) -> Seq<DrawCommand> {
    Seq::new(s.len(), |i: int| s[i].shifted(dx, dy))
}

/// Append `source[from..to]`, moved by `(dx, dy)`, to `target`.
pub fn append_shifted(
    target: &mut Vec<DrawCommand>,
    source: &[DrawCommand],
    from: usize,
    to: usize,
    dx: Pt,
    dy: Pt,
)
    requires
        from <= to <= source@.len(),
    ensures
        final(target)@ == old(target)@ + shift_all(
            source@.subrange(from as int, to as int),
            dx,
            dy,
        ),
{
    let mut i: usize = from;
    while i < to
        invariant
            from <= i <= to <= source@.len(),
            target@ == old(target)@ + shift_all(source@.subrange(from as int, i as int), dx, dy),
        decreases to - i,
    {
        let moved = source[i].shifted_by(dx, dy);
        target.push(moved);
        i += 1;
        assert(target@ =~= old(target)@ + shift_all(
            source@.subrange(from as int, i as int),
            dx,
            dy,
        ));
    }
    assert(target@ =~= old(target)@ + shift_all(source@.subrange(from as int, to as int), dx, dy));
}

} // verus!
