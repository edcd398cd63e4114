//! The floating objects of paragraphs in cells, headers and footers.
use crate::block::{FloatingImage, FloatingShape, PageParity};
use crate::dimension::Pt;
use crate::draw_command::{append_shifted, shift_all, DrawCommand};
use crate::ink::{
    images_ink, ink, lemma_ink_concat, lemma_ink_one, lemma_ink_shift, shape_ink, shapes_ink, Ink,
};
use vstd::multiset::Multiset;
use vstd::prelude::*;

verus! {

/// A drawing and the text in it.
pub open spec fn shape_drawn(shape: FloatingShape, parity: PageParity, content_top: Pt) -> Seq<
    DrawCommand,
> {
    seq![DrawCommand::Path { rect: shape.frame.rect(parity, content_top), path: shape.path }]
        + shift_all(
        shape.text_commands@,
        shape.frame.x.resolve(parity),
        shape.frame.y.resolve(content_top),
    )
}

/// The commands with those of the images from `i` on that are drawn before the text, or of the others.
pub open spec fn with_images(
    commands: Seq<DrawCommand>,
    images: Seq<FloatingImage>,
    i: int,
    first: bool,
    parity: PageParity,
    content_top: Pt,
) -> Seq<DrawCommand>
    decreases images.len() - i,
{
    if i < 0 || i >= images.len() {
        commands
    } else {
        let next = if images[i].frame.is_drawn_first() == first {
            commands.push(
                DrawCommand::Image {
                    rect: images[i].frame.rect(parity, content_top),
                    image: images[i].image,
                },
            )
        } else {
            commands
        };
        with_images(next, images, i + 1, first, parity, content_top)
    }
}

/// The commands with those of the drawings from `i` on that are drawn before the text, or of the
/// others.
pub open spec fn with_shapes(
    commands: Seq<DrawCommand>,
    shapes: Seq<FloatingShape>,
    i: int,
    first: bool,
    parity: PageParity,
    content_top: Pt,
) -> Seq<DrawCommand>
    decreases shapes.len() - i,
{
    if i < 0 || i >= shapes.len() {
        commands
    } else {
        let next = if shapes[i].frame.is_drawn_first() == first {
            commands + shape_drawn(shapes[i], parity, content_top)
        } else {
            commands
        };
        with_shapes(next, shapes, i + 1, first, parity, content_top)
    }
}

/// The floating objects of a paragraph that are drawn before its text, or the others: each at its place
/// in the content that holds the paragraph, whose text starts at `content_top`. The text of the
/// paragraph stays where it is.
pub open spec fn anchored(
    images: Seq<FloatingImage>,
    shapes: Seq<FloatingShape>,
    first: bool,
    parity: PageParity,
    content_top: Pt,
) -> Seq<DrawCommand> {
    with_shapes(
        with_images(Seq::empty(), images, 0, first, parity, content_top),
        shapes,
        0,
        first,
        parity,
        content_top,
    )
}

/// Draw the floating objects of a paragraph that come before its text, or the others.
pub fn draw_anchored(
    images: &[FloatingImage],
    shapes: &[FloatingShape],
    first: bool,
    parity: PageParity,
    content_top: Pt,
) -> (r: Vec<DrawCommand>)
    ensures
        r@ == anchored(images@, shapes@, first, parity, content_top),
{
    let mut commands: Vec<DrawCommand> = Vec::new();
    let mut i: usize = 0;
    while i < images.len()
        invariant
            i <= images@.len(),
            with_images(commands@, images@, i as int, first, parity, content_top) == with_images(
                Seq::empty(),
                images@,
                0,
                first,
                parity,
                content_top,
            ),
        decreases images@.len() - i,
    {
        let frame = &images[i].frame;
        if frame.is_drawn_first() == first {
            commands.push(
                DrawCommand::Image { rect: frame.rect(parity, content_top), image: images[i].image },
            );
        }
        i += 1;
    }
    let ghost imaged = commands@;
    let mut k: usize = 0;
    while k < shapes.len()
        invariant
            k <= shapes@.len(),
            with_shapes(commands@, shapes@, k as int, first, parity, content_top) == with_shapes(
                imaged,
                shapes@,
                0,
                first,
                parity,
                content_top,
            ),
        decreases shapes@.len() - k,
    {
        let shape = &shapes[k];
        if shape.frame.is_drawn_first() == first {
            let ghost before = commands@;
            commands.push(
                DrawCommand::Path { rect: shape.frame.rect(parity, content_top), path: shape.path },
            );
            append_shifted(
                &mut commands,
                shape.text_commands.as_slice(),
                0,
                shape.text_commands.len(),
                shape.frame.x.resolve(parity),
                shape.frame.y.resolve(content_top),
            );
            assert(shape.text_commands@.subrange(0, shape.text_commands@.len() as int)
                =~= shape.text_commands@);
            assert(commands@ =~= before + shape_drawn(*shape, parity, content_top));
        }
        k += 1;
    }
    commands
}

proof fn lemma_images_ink(
    a: Seq<DrawCommand>,
    b: Seq<DrawCommand>,
    images: Seq<FloatingImage>,
    i: int,
    parity: PageParity,
    content_top: Pt,
)
    ensures
        ink(with_images(a, images, i, true, parity, content_top)).add(
            ink(with_images(b, images, i, false, parity, content_top)),
        ) == ink(a).add(ink(b)).add(images_ink(images, i)),
    decreases images.len() - i,
{
    if 0 <= i < images.len() {
        let command = DrawCommand::Image {
            rect: images[i].frame.rect(parity, content_top),
            image: images[i].image,
        };
        lemma_ink_one(a, command);
        lemma_ink_one(b, command);
        if images[i].frame.is_drawn_first() {
            lemma_images_ink(a.push(command), b, images, i + 1, parity, content_top);
        } else {
            lemma_images_ink(a, b.push(command), images, i + 1, parity, content_top);
        }
    }
    assert(ink(with_images(a, images, i, true, parity, content_top)).add(
        ink(with_images(b, images, i, false, parity, content_top)),
    ) =~= ink(a).add(ink(b)).add(images_ink(images, i)));
}

proof fn lemma_shape_ink(shape: FloatingShape, parity: PageParity, content_top: Pt)
    ensures
        ink(shape_drawn(shape, parity, content_top)) == shape_ink(shape),
{
    let command = DrawCommand::Path {
        rect: shape.frame.rect(parity, content_top),
        path: shape.path,
    };
    let x = shape.frame.x.resolve(parity);
    let y = shape.frame.y.resolve(content_top);
    lemma_ink_one(Seq::empty(), command);
    assert(seq![command] =~= Seq::empty().push(command));
    lemma_ink_shift(shape.text_commands@, x, y);
    lemma_ink_concat(seq![command], shift_all(shape.text_commands@, x, y));
    assert(ink(shape_drawn(shape, parity, content_top)) =~= shape_ink(shape));
}

proof fn lemma_shapes_ink(
    a: Seq<DrawCommand>,
    b: Seq<DrawCommand>,
    shapes: Seq<FloatingShape>,
    i: int,
    parity: PageParity,
    content_top: Pt,
)
    ensures
        ink(with_shapes(a, shapes, i, true, parity, content_top)).add(
            ink(with_shapes(b, shapes, i, false, parity, content_top)),
        ) == ink(a).add(ink(b)).add(shapes_ink(shapes, i)),
    decreases shapes.len() - i,
{
    if 0 <= i < shapes.len() {
        let drawn = shape_drawn(shapes[i], parity, content_top);
        lemma_shape_ink(shapes[i], parity, content_top);
        lemma_ink_concat(a, drawn);
        lemma_ink_concat(b, drawn);
        if shapes[i].frame.is_drawn_first() {
            lemma_shapes_ink(a + drawn, b, shapes, i + 1, parity, content_top);
        } else {
            lemma_shapes_ink(a, b + drawn, shapes, i + 1, parity, content_top);
        }
    }
    assert(ink(with_shapes(a, shapes, i, true, parity, content_top)).add(
        ink(with_shapes(b, shapes, i, false, parity, content_top)),
    ) =~= ink(a).add(ink(b)).add(shapes_ink(shapes, i)));
}

/// The floating objects of a paragraph are shown once, before its text or after it.
pub(crate) proof fn lemma_anchored_ink(
    images: Seq<FloatingImage>,
    shapes: Seq<FloatingShape>,
    parity: PageParity,
    content_top: Pt,
)
    ensures
        ink(anchored(images, shapes, true, parity, content_top)).add(
            ink(anchored(images, shapes, false, parity, content_top)),
        ) == images_ink(images, 0).add(shapes_ink(shapes, 0)),
{
    let none = Seq::<DrawCommand>::empty();
    lemma_images_ink(none, none, images, 0, parity, content_top);
    lemma_shapes_ink(
        with_images(none, images, 0, true, parity, content_top),
        with_images(none, images, 0, false, parity, content_top),
        shapes,
        0,
        parity,
        content_top,
    );
    assert(ink(none) =~= Multiset::<Ink>::empty());
    assert(ink(anchored(images, shapes, true, parity, content_top)).add(
        ink(anchored(images, shapes, false, parity, content_top)),
    ) =~= images_ink(images, 0).add(shapes_ink(shapes, 0)));
}

} // verus!
