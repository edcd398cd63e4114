//! What the floating objects of a paragraph show.
use crate::block::{FloatingFrame, FloatingImage, FloatingShape};
use crate::dimension::Pt;
use crate::draw_command::DrawCommand;
use crate::float::FloatSource;
use crate::geometry::PtRect;
use crate::ink::{
    command_ink, image_ink, images_ink, ink, lemma_ink_concat, shape_ink, shapes_ink, Ink,
};
use crate::page::{behind_index, LayeredDrawCommand};
use crate::section::floats::frame_float;
use crate::section::laws::{behind_ink, page_ink};
use crate::section::state::FlowState;
use vstd::multiset::Multiset;
use vstd::prelude::*;

verus! {

/// Whether no floating object lies behind the text.
pub open spec fn none_behind(images: Seq<FloatingImage>, shapes: Seq<FloatingShape>) -> bool {
    &&& forall|i: int| #![trigger images[i]]
        0 <= i < images.len() ==> !images[i].frame.behind_doc
    &&& forall|i: int| #![trigger shapes[i]]
        0 <= i < shapes.len() ==> !shapes[i].frame.behind_doc
}

/// What the images from `i` on show that are bands, or that are none.
pub(crate) open spec fn images_part(
    images: Seq<FloatingImage>,
    i: int,
    bands: bool,
) -> Multiset<Ink>
    decreases images.len() - i,
{
    if i < 0 || i >= images.len() {
        Multiset::empty()
    } else {
        let rest = images_part(images, i + 1, bands);
        if images[i].frame.is_wrap_top_and_bottom() == bands {
            image_ink(images[i]).add(rest)
        } else {
            rest
        }
    }
}

/// What the drawings from `i` on show that are bands, or that are none.
pub(crate) open spec fn shapes_part(
    shapes: Seq<FloatingShape>,
    i: int,
    bands: bool,
) -> Multiset<Ink>
    decreases shapes.len() - i,
{
    if i < 0 || i >= shapes.len() {
        Multiset::empty()
    } else {
        let rest = shapes_part(shapes, i + 1, bands);
        if shapes[i].frame.is_wrap_top_and_bottom() == bands {
            shape_ink(shapes[i]).add(rest)
        } else {
            rest
        }
    }
}

/// What the bands among floating objects show, or what the others show.
pub(crate) open spec fn floats_part(
    images: Seq<FloatingImage>,
    shapes: Seq<FloatingShape>,
    bands: bool,
) -> Multiset<Ink> {
    images_part(images, 0, bands).add(shapes_part(shapes, 0, bands))
}

proof fn lemma_images_parts(images: Seq<FloatingImage>, i: int)
    ensures
        images_ink(images, i) == images_part(images, i, true).add(images_part(images, i, false)),
    decreases images.len() - i,
{
    if 0 <= i < images.len() {
        lemma_images_parts(images, i + 1);
    }
    assert(images_ink(images, i) =~= images_part(images, i, true).add(
        images_part(images, i, false),
    ));
}

proof fn lemma_shapes_parts(shapes: Seq<FloatingShape>, i: int)
    ensures
        shapes_ink(shapes, i) == shapes_part(shapes, i, true).add(shapes_part(shapes, i, false)),
    decreases shapes.len() - i,
{
    if 0 <= i < shapes.len() {
        lemma_shapes_parts(shapes, i + 1);
    }
    assert(shapes_ink(shapes, i) =~= shapes_part(shapes, i, true).add(
        shapes_part(shapes, i, false),
    ));
}

/// Bands and other floating objects are all that there are.
pub(crate) proof fn lemma_floats_parts(images: Seq<FloatingImage>, shapes: Seq<FloatingShape>)
    ensures
        images_ink(images, 0).add(shapes_ink(shapes, 0)) == floats_part(images, shapes, true).add(
            floats_part(images, shapes, false),
        ),
{
    lemma_images_parts(images, 0);
    lemma_shapes_parts(shapes, 0);
    assert(images_ink(images, 0).add(shapes_ink(shapes, 0)) =~= floats_part(
        images,
        shapes,
        true,
    ).add(floats_part(images, shapes, false)));
}

proof fn lemma_behind_index(behind: Seq<LayeredDrawCommand>, height: u32, i: int)
    requires
        0 <= i <= behind.len(),
    ensures
        0 <= behind_index(behind, height, i) <= i,
    decreases i,
{
    if i > 0 && behind[i - 1].relative_height > height {
        lemma_behind_index(behind, height, i - 1);
    }
}

proof fn lemma_behind_insert(behind: Seq<LayeredDrawCommand>, k: int, layer: LayeredDrawCommand)
    requires
        0 <= k <= behind.len(),
    ensures
        behind_ink(behind.insert(k, layer)) == behind_ink(behind).add(command_ink(layer.command)),
    decreases behind.len(),
{
    let more = behind.insert(k, layer);
    if k == behind.len() {
        assert(more.drop_last() =~= behind);
    } else {
        lemma_behind_insert(behind.drop_last(), k, layer);
        assert(more.drop_last() =~= behind.drop_last().insert(k, layer));
        assert(more.last() == behind.last());
        assert(behind_ink(more) =~= behind_ink(behind).add(command_ink(layer.command)));
    }
}

/// Whether `b` is `a` with nothing changed on it but what the page shows, and what text keeps clear of.
pub(crate) open spec fn differs_in_floats(a: FlowState<'_>, b: FlowState<'_>) -> bool {
    &&& b.pages == a.pages
    &&& b.page_index == a.page_index
    &&& b.logical_page_base == a.logical_page_base
    &&& b.current_col == a.current_col
    &&& b.footnotes == a.footnotes
}

proof fn lemma_one_command(command: DrawCommand)
    ensures
        ink(seq![command]) == command_ink(command),
{
    let one = seq![command];
    assert(one.drop_last() =~= Seq::<DrawCommand>::empty());
    assert(ink(one.drop_last()) =~= Multiset::<Ink>::empty());
    assert(ink(one) =~= command_ink(command));
}

proof fn lemma_command<'doc>(st: FlowState<'doc>, frame: FloatingFrame, command: DrawCommand)
    ensures
        ({
            let next = st.with_floating_command(frame, command);
            &&& next.shown() == st.shown().add(command_ink(command))
            &&& differs_in_floats(st, next)
            &&& !frame.behind_doc ==> next.page.behind == st.page.behind
        }),
{
    let next = st.with_floating_command(frame, command);
    if frame.behind_doc {
        let k = behind_index(st.page.behind, frame.relative_height, st.page.behind.len() as int);
        lemma_behind_index(st.page.behind, frame.relative_height, st.page.behind.len() as int);
        lemma_behind_insert(
            st.page.behind,
            k,
            LayeredDrawCommand { relative_height: frame.relative_height, command },
        );
    } else {
        let one = seq![command];
        lemma_ink_concat(st.page.commands, one);
        lemma_one_command(command);
    }
    assert(page_ink(next.page) =~= page_ink(st.page).add(command_ink(command)));
    assert(next.shown() =~= st.shown().add(command_ink(command)));
}

proof fn lemma_image<'doc>(st: FlowState<'doc>, image: FloatingImage, y: Pt)
    ensures
        ({
            let next = st.with_image(image, y);
            &&& next.shown() == st.shown().add(image_ink(image))
            &&& differs_in_floats(st, next)
            &&& !image.frame.behind_doc ==> next.page.behind == st.page.behind
        }),
{
    let command = DrawCommand::Image {
        rect: PtRect::from_xywh(
            image.frame.x.resolve(st.parity()),
            y,
            image.frame.size.width,
            image.frame.size.height,
        ),
        image: image.image,
    };
    lemma_command(st, image.frame, command);
}

proof fn lemma_shape_text<'doc>(st: FlowState<'doc>, shape: FloatingShape, y: Pt, i: int)
    requires
        0 <= i <= shape.text_commands@.len(),
    ensures
        ({
            let next = st.with_shape_text(shape, y, i);
            let rest = shape.text_commands@.subrange(i, shape.text_commands@.len() as int);
            &&& next.shown() == st.shown().add(ink(rest))
            &&& differs_in_floats(st, next)
            &&& !shape.frame.behind_doc ==> next.page.behind == st.page.behind
        }),
    decreases shape.text_commands@.len() - i,
{
    let all = shape.text_commands@;
    let n = all.len() as int;
    if i < n {
        let command = all[i].shifted(shape.frame.x.resolve(st.parity()), y);
        lemma_command(st, shape.frame, command);
        let next = st.with_floating_command(shape.frame, command);
        lemma_shape_text(next, shape, y, i + 1);
        let one = seq![all[i]];
        assert(all.subrange(i, n) =~= one + all.subrange(i + 1, n));
        lemma_ink_concat(one, all.subrange(i + 1, n));
        lemma_one_command(all[i]);
        assert(command_ink(command) == command_ink(all[i]));
        assert(st.with_shape_text(shape, y, i).shown() =~= st.shown().add(
            ink(all.subrange(i, n)),
        ));
    } else {
        assert(st.shown().add(ink(all.subrange(i, n))) =~= st.shown());
    }
}

proof fn lemma_shape<'doc>(st: FlowState<'doc>, shape: FloatingShape, y: Pt)
    ensures
        ({
            let next = st.with_shape(shape, y);
            &&& next.shown() == st.shown().add(shape_ink(shape))
            &&& differs_in_floats(st, next)
            &&& !shape.frame.behind_doc ==> next.page.behind == st.page.behind
        }),
{
    let command = DrawCommand::Path {
        rect: PtRect::from_xywh(
            shape.frame.x.resolve(st.parity()),
            y,
            shape.frame.size.width,
            shape.frame.size.height,
        ),
        path: shape.path,
    };
    lemma_command(st, shape.frame, command);
    let drawn = st.with_floating_command(shape.frame, command);
    lemma_shape_text(drawn, shape, y, 0);
    assert(shape.text_commands@.subrange(0, shape.text_commands@.len() as int)
        =~= shape.text_commands@);
    assert(st.with_shape(shape, y).shown() =~= st.shown().add(shape_ink(shape)));
}

proof fn lemma_images<'doc>(
    st: FlowState<'doc>,
    images: Seq<FloatingImage>,
    i: int,
    top: Pt,
    x: Pt,
    width: Pt,
)
    requires
        0 <= i,
    ensures
        ({
            let next = st.with_images(images, i, top, x, width);
            &&& next.shown() == st.shown().add(images_part(images, i, true))
            &&& differs_in_floats(st, next)
            &&& none_behind(images, Seq::empty()) ==> next.page.behind == st.page.behind
        }),
        ({
            let next = st.with_free_images(images, i, top);
            &&& next.shown() == st.shown().add(images_part(images, i, false))
            &&& differs_in_floats(st, next)
            &&& none_behind(images, Seq::empty()) ==> next.page.behind == st.page.behind
        }),
    decreases images.len() - i,
{
    if i < images.len() {
        let frame = images[i].frame;
        let y = frame.y.resolve(top);
        let f = frame_float(frame, y, st.parity(), x, width, FloatSource::Image);
        lemma_image(st, images[i], y);
        let next = if frame.is_wrap_top_and_bottom() {
            st.with_image(images[i], y).with_room(frame, f)
        } else if frame.wrap_mode.registers_as_wrap_float() {
            st.with_room(frame, f)
        } else {
            st
        };
        assert(next.shown() == if frame.is_wrap_top_and_bottom() {
            st.with_image(images[i], y).shown()
        } else {
            st.shown()
        });
        assert(differs_in_floats(st, next));
        lemma_images(next, images, i + 1, top, x, width);
        let free = if frame.is_wrap_top_and_bottom() {
            st
        } else {
            st.with_image(images[i], y)
        };
        lemma_images(free, images, i + 1, top, x, width);
    }
    assert(st.with_images(images, i, top, x, width).shown() =~= st.shown().add(
        images_part(images, i, true),
    ));
    assert(st.with_free_images(images, i, top).shown() =~= st.shown().add(
        images_part(images, i, false),
    ));
}

proof fn lemma_shapes<'doc>(
    st: FlowState<'doc>,
    shapes: Seq<FloatingShape>,
    i: int,
    top: Pt,
    x: Pt,
    width: Pt,
)
    requires
        0 <= i,
    ensures
        ({
            let next = st.with_shapes(shapes, i, top, x, width);
            &&& next.shown() == st.shown().add(shapes_part(shapes, i, true))
            &&& differs_in_floats(st, next)
            &&& none_behind(Seq::empty(), shapes) ==> next.page.behind == st.page.behind
        }),
        ({
            let next = st.with_free_shapes(shapes, i, top);
            &&& next.shown() == st.shown().add(shapes_part(shapes, i, false))
            &&& differs_in_floats(st, next)
            &&& none_behind(Seq::empty(), shapes) ==> next.page.behind == st.page.behind
        }),
    decreases shapes.len() - i,
{
    if i < shapes.len() {
        let frame = shapes[i].frame;
        let y = frame.y.resolve(top);
        let f = frame_float(frame, y, st.parity(), x, width, FloatSource::Shape);
        lemma_shape(st, shapes[i], y);
        let next = if frame.is_wrap_top_and_bottom() {
            st.with_shape(shapes[i], y).with_room(frame, f)
        } else if frame.wrap_mode.registers_as_wrap_float() {
            st.with_room(frame, f)
        } else {
            st
        };
        assert(next.shown() == if frame.is_wrap_top_and_bottom() {
            st.with_shape(shapes[i], y).shown()
        } else {
            st.shown()
        });
        assert(differs_in_floats(st, next));
        lemma_shapes(next, shapes, i + 1, top, x, width);
        let free = if frame.is_wrap_top_and_bottom() {
            st
        } else {
            st.with_shape(shapes[i], y)
        };
        lemma_shapes(free, shapes, i + 1, top, x, width);
    }
    assert(st.with_shapes(shapes, i, top, x, width).shown() =~= st.shown().add(
        shapes_part(shapes, i, true),
    ));
    assert(st.with_free_shapes(shapes, i, top).shown() =~= st.shown().add(
        shapes_part(shapes, i, false),
    ));
}

/// Placing the floating objects of a paragraph draws the bands among them.
pub(crate) proof fn lemma_bands<'doc>(
    st: FlowState<'doc>,
    images: Seq<FloatingImage>,
    shapes: Seq<FloatingShape>,
    top: Pt,
    x: Pt,
    width: Pt,
)
    ensures
        ({
            let next = st.with_paragraph_floats(images, shapes, top, x, width);
            &&& next.shown() == st.shown().add(floats_part(images, shapes, true))
            &&& differs_in_floats(st, next)
            &&& none_behind(images, shapes) ==> next.page.behind == st.page.behind
        }),
{
    lemma_images(st, images, 0, top, x, width);
    let between = st.with_images(images, 0, top, x, width);
    lemma_shapes(between, shapes, 0, top, x, width);
    assert(st.with_paragraph_floats(images, shapes, top, x, width).shown() =~= st.shown().add(
        floats_part(images, shapes, true),
    ));
}

/// The end of a paragraph draws its other floating objects.
pub(crate) proof fn lemma_free_floats<'doc>(
    st: FlowState<'doc>,
    images: Seq<FloatingImage>,
    shapes: Seq<FloatingShape>,
    top: Pt,
)
    ensures
        ({
            let next = st.with_free_images(images, 0, top).with_free_shapes(shapes, 0, top);
            &&& next.shown() == st.shown().add(floats_part(images, shapes, false))
            &&& differs_in_floats(st, next)
            &&& none_behind(images, shapes) ==> next.page.behind == st.page.behind
        }),
{
    lemma_images(st, images, 0, top, Pt::zero(), Pt::zero());
    let between = st.with_free_images(images, 0, top);
    lemma_shapes(between, shapes, 0, top, Pt::zero(), Pt::zero());
    assert(between.with_free_shapes(shapes, 0, top).shown() =~= st.shown().add(
        floats_part(images, shapes, false),
    ));
}

} // verus!
