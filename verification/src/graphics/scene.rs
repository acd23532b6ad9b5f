//! The display list: ordering by draw-order key and compositing onto a
//! buffer by the painter's rule.

use super::canvas::{lemma_paint, Canvas};
use super::draw::Draw;
use super::frame_buffer::{FrameBuffer, Size};
use super::shape::Shape;
use vstd::prelude::*;

verus! {

/// A display list: the shapes to show and the extent of the screen that
/// shows them.
#[derive(Debug)]
pub struct Scene {
    contents: Vec<Shape>,
    res: Size,
}

impl View for Scene {
    type V = Seq<Shape>;

    closed spec fn view(&self) -> Seq<Shape> {
        self.contents@
    }
}

/// The picture that results from painting the shapes onto `canvas` one
/// after the other, the first shape first: a later shape covers an earlier
/// one wherever both have a cell.
pub open spec fn composite(canvas: Canvas, shapes: Seq<Shape>) -> Canvas
    decreases shapes.len(),
{
    if shapes.len() == 0 {
        canvas
    } else {
        composite(canvas, shapes.drop_last()).paint(shapes.last().cells(), shapes.last().ink())
    }
}

/// The index of the last shape in the list that covers the cell `(x, y)`,
/// if any shape does.
pub open spec fn topmost(shapes: Seq<Shape>, x: int, y: int) -> Option<int>
    decreases shapes.len(),
{
    if shapes.len() == 0 {
        None
    } else if shapes.last().cells().contains((x, y)) {
        Some(shapes.len() - 1)
    } else {
        topmost(shapes.drop_last(), x, y)
    }
}

/// `topmost` names a shape that covers the cell and after which no shape
/// covers it, or finds that none covers it.
pub proof fn lemma_topmost(shapes: Seq<Shape>, x: int, y: int)
    ensures
        match topmost(shapes, x, y) {
            Some(i) => 0 <= i < shapes.len() && shapes[i].cells().contains((x, y)) && forall|
                j: int,
            |
                i < j < shapes.len() ==> !(#[trigger] shapes[j]).cells().contains((x, y)),
            None => forall|j: int|
                0 <= j < shapes.len() ==> !(#[trigger] shapes[j]).cells().contains((x, y)),
        },
    decreases shapes.len(),
{
    if shapes.len() > 0 && !shapes.last().cells().contains((x, y)) {
        lemma_topmost(shapes.drop_last(), x, y);
        assert forall|j: int| 0 <= j < shapes.len() - 1 implies shapes[j] == shapes.drop_last()[j] by {}
    }
}

/// The painter's rule: in the composite picture a cell has the colour of
/// the last shape in the list that covers it, and keeps its colour where no
/// shape covers it.
pub proof fn lemma_composite_shows_topmost(canvas: Canvas, shapes: Seq<Shape>, x: int, y: int)
    requires
        canvas.wf(),
        canvas.contains(x, y),
    ensures
        composite(canvas, shapes).wf(),
        composite(canvas, shapes).same_extent(canvas),
        composite(canvas, shapes).at(x, y) == match topmost(shapes, x, y) {
            Some(i) => shapes[i].ink(),
            None => canvas.at(x, y),
        },
    decreases shapes.len(),
{
    if shapes.len() > 0 {
        let below = composite(canvas, shapes.drop_last());
        lemma_composite_shows_topmost(canvas, shapes.drop_last(), x, y);
        lemma_paint(below, shapes.last().cells(), shapes.last().ink());
        assert(below.contains(x, y));
        if !shapes.last().cells().contains((x, y)) {
            lemma_topmost(shapes.drop_last(), x, y);
        }
    }
}

/// The draw-order keys never fall along the sequence.
pub open spec fn in_draw_order(shapes: Seq<Shape>) -> bool {
    forall|i: int, j: int| 0 <= i <= j < shapes.len() ==> shapes[i].order() <= shapes[j].order()
}

/// The test for shapes with draw-order key `z`.
pub open spec fn has_order(z: u32) -> spec_fn(Shape) -> bool {
    |s: Shape| s.order() == z
}

/// The shapes with draw-order key `z`, in the order in which they stand.
pub open spec fn of_order(shapes: Seq<Shape>, z: u32) -> Seq<Shape> {
    shapes.filter(has_order(z))
}

/// `sorted` holds the shapes of `given` in ascending draw order, and shapes
/// with the same key stand as they stood in `given`.
pub open spec fn is_stable_sort(given: Seq<Shape>, sorted: Seq<Shape>) -> bool {
    &&& in_draw_order(sorted)
    &&& forall|z: u32| of_order(sorted, z) == of_order(given, z)
}

/// A sequence in draw order that ends in a shape of key `z` has no shape
/// of a higher key.
proof fn lemma_last_has_highest_order(shapes: Seq<Shape>, z: u32)
    requires
        in_draw_order(shapes),
        of_order(shapes, z).len() > 0,
    ensures
        shapes.len() > 0,
        z <= shapes.last().order(),
{
    let pred = has_order(z);
    let found = of_order(shapes, z)[0];
    shapes.lemma_filter_pred(pred, 0);
    assert(of_order(shapes, z).contains(found));
    shapes.lemma_filter_contains_rev(pred, found);
    let i = choose|i: int| 0 <= i < shapes.len() && shapes[i] == found;
    assert(shapes[i].order() <= shapes[shapes.len() - 1].order());
}

/// Two sequences in draw order that hold, for every key, the same shapes in
/// the same order are one sequence.
proof fn lemma_same_by_order(a: Seq<Shape>, b: Seq<Shape>)
    requires
        in_draw_order(a),
        in_draw_order(b),
        forall|z: u32| of_order(a, z) == of_order(b, z),
    ensures
        a == b,
    decreases a.len(),
{
    reveal(Seq::filter);
    if a.len() == 0 {
        if b.len() > 0 {
            let z = b.last().order();
            assert(of_order(b, z).len() > 0);
            assert(of_order(a, z).len() == 0);
        }
        assert(a =~= b);
    } else {
        let za = a.last().order();
        assert(of_order(a, za) == of_order(a.drop_last(), za).push(a.last()));
        assert(of_order(b, za).len() > 0);
        lemma_last_has_highest_order(b, za);
        let zb = b.last().order();
        assert(of_order(b, zb) == of_order(b.drop_last(), zb).push(b.last()));
        assert(of_order(a, zb).len() > 0);
        lemma_last_has_highest_order(a, zb);
        assert(za == zb);
        assert(a.last() == of_order(a, za).last());
        assert(b.last() == of_order(b, za).last());
        assert forall|z: u32| of_order(a.drop_last(), z) == of_order(b.drop_last(), z) by {
            assert(of_order(a, z) == of_order(b, z));
            if z == za {
                assert(of_order(a.drop_last(), z) =~= of_order(a, z).drop_last());
                assert(of_order(b.drop_last(), z) =~= of_order(b, z).drop_last());
            }
        }
        lemma_same_by_order(a.drop_last(), b.drop_last());
        assert(a =~= a.drop_last().push(a.last()));
        assert(b =~= b.drop_last().push(b.last()));
    }
}

/// A sequence of shapes has one stable sort by draw order, and no other.
pub proof fn lemma_stable_sort_is_unique(given: Seq<Shape>, a: Seq<Shape>, b: Seq<Shape>)
    requires
        is_stable_sort(given, a),
        is_stable_sort(given, b),
    ensures
        a == b,
{
    assert forall|z: u32| of_order(a, z) == of_order(b, z) by {
        assert(of_order(a, z) == of_order(given, z));
        assert(of_order(b, z) == of_order(given, z));
    }
    lemma_same_by_order(a, b);
}

/// `<[Shape]>::sort_by_key` of the standard library, keyed by the shapes'
/// draw order. Its documentation promises an ascending, stable sort: equal
/// keys keep their relative order. Nothing here proves it.
#[verifier::external_body]
fn stable_sort_by_order(shapes: &mut Vec<Shape>)
    ensures
        is_stable_sort(old(shapes)@, final(shapes)@),
{
    shapes.sort_by_key(|shape| shape.z_index());
}

impl Scene {
    /// The extent of the screen.
    pub closed spec fn extent(&self) -> Size {
        self.res
    }

    pub fn new(contents: Vec<Shape>, res: Size) -> (scene: Scene)
        ensures
            scene@ == contents@,
            scene.extent() == res,
    {
        Scene { contents, res }
    }

    pub fn contents(&self) -> (contents: &Vec<Shape>)
        ensures
            contents@ == self@,
    {
        &self.contents
    }

    pub fn res(&self) -> (res: &Size)
        ensures
            *res == self.extent(),
    {
        &self.res
    }

    /// The display list, open to change; the screen extent stays.
    pub fn contents_mut(&mut self) -> (contents: &mut Vec<Shape>)
        ensures
            contents@ == old(self)@,
            final(self)@ == final(contents)@,
            final(self).extent() == old(self).extent(),
    {
        &mut self.contents
    }

    /// Brings the display list into ascending draw order, keeping shapes of
    /// equal key in their order.
    pub fn sort_contents(&mut self)
        ensures
            is_stable_sort(old(self)@, final(self)@),
            final(self).extent() == old(self).extent(),
    {
        stable_sort_by_order(&mut self.contents);
    }

    /// Paints the display list onto the buffer, in list order.
    pub fn draw(&self, frame_buffer: &mut FrameBuffer)
        ensures
            final(frame_buffer)@ == composite(old(frame_buffer)@, self@),
    {
        let ghost before: Canvas = frame_buffer@;
        let n: usize = self.contents.len();
        let mut i: usize = 0;
        while i < n
            invariant
                i <= n,
                n == self.contents@.len(),
                frame_buffer@ == composite(before, self.contents@.subrange(0, i as int)),
            decreases n - i,
        {
            self.contents[i].draw(frame_buffer);
            proof {
                let upto = self.contents@.subrange(0, i + 1);
                assert(upto.drop_last() =~= self.contents@.subrange(0, i as int));
                assert(upto.last() == self.contents@[i as int]);
            }
            i += 1;
        }
        assert(self.contents@.subrange(0, n as int) =~= self.contents@);
    }

    /// A fresh black buffer of the screen's extent with the display list
    /// painted onto it.
    pub fn to_frame_buffer(&self) -> (output: FrameBuffer)
        requires
            self.extent().width * self.extent().height <= usize::MAX,
        ensures
            output@ == composite(
                Canvas::blank(self.extent().width as nat, self.extent().height as nat),
                self@,
            ),
    {
        let mut output = FrameBuffer::new(self.res);
        self.draw(&mut output);
        output
    }
}

} // verus!
