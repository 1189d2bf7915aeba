use vstd::prelude::*;

use crate::matrix::{
    identity_rows, lemma_seam_order, rows_of_width, rows_without_seam, seam_after, seam_before,
    seam_error, Matrix, SeamError,
};
use crate::pos::Pos;
use crate::view::ImageView;

verus! {

/// An image with some vertical seams carved out of it.
///
/// The source is borrowed, never copied: each query goes through a table
/// that maps a column of the carved image to a column of the source. To save
/// or further process the result, turn it into a buffer with
/// `image_view_to_buffer`.
pub struct Carved<'a, I: ImageView> {
    img: &'a I,
    removed: u32,
    /// `pos_aliases@[y][x]` is the source column that column `x` of row `y`
    /// stands for.
    pos_aliases: Matrix,
}

impl<'a, I: ImageView> Carved<'a, I> {
    /// The image the view reads from.
    pub closed spec fn spec_source(&self) -> I {
        *self.img
    }

    /// How many seams have been removed so far.
    pub closed spec fn removed_count(&self) -> nat {
        self.removed as nat
    }

    /// For each row, the source column behind each of its columns.
    pub closed spec fn columns(&self) -> Seq<Seq<u32>> {
        self.pos_aliases@
    }

    /// Well-formedness: the table has one row per source row, each as wide as
    /// the carved image, and names only columns of the source.
    pub closed spec fn wf(&self) -> bool {
        let (w, h) = self.img.spec_dimensions();
        &&& self.img.well_formed()
        &&& self.removed <= w
        &&& self.pos_aliases@.len() == h
        &&& self.pos_aliases.cols() == w - self.removed
        &&& rows_of_width(self.pos_aliases@, self.pos_aliases.cols())
        &&& forall|y: int, x: int|
            0 <= y < h && 0 <= x < w - self.removed ==> #[trigger] self.pos_aliases@[y][x] < w
    }

    /// The column table has one row per row of the view, each as wide as
    /// the view, and names only columns of the source.
    pub proof fn lemma_columns_shape(&self)
        requires
            self.wf(),
        ensures
            self.columns().len() == self.spec_dimensions().1,
            rows_of_width(self.columns(), self.spec_dimensions().0 as nat),
            forall|y: int, x: int|
                0 <= y < self.spec_dimensions().1 && 0 <= x < self.spec_dimensions().0
                    ==> #[trigger] self.columns()[y][x] < self.spec_source().spec_dimensions().0,
    {
    }

    /// A view of `img` with nothing removed yet.
    pub fn new(img: &'a I) -> (c: Self)
        requires
            img.well_formed(),
            img.spec_dimensions().0 * img.spec_dimensions().1 <= usize::MAX,
        ensures
            c.wf(),
            c.spec_source() == *img,
            c.removed_count() == 0,
            c.columns() == identity_rows(
                img.spec_dimensions().0 as nat,
                img.spec_dimensions().1 as nat,
            ),
            c.spec_dimensions() == img.spec_dimensions(),
            c.columns().len() == c.spec_dimensions().1,
            rows_of_width(c.columns(), c.spec_dimensions().0 as nat),
            forall|x: u32, y: u32|
                x < img.spec_dimensions().0 && y < img.spec_dimensions().1 ==> #[trigger] c.spec_pixel(
                    x,
                    y,
                ) == img.spec_pixel(x, y),
    {
        let (w, h) = img.dimensions();
        let pos_aliases = Matrix::identity(w, h);
        Carved { img, removed: 0, pos_aliases }
    }

    /// Removes one seam: the position `seam[y]` from each row `y`.
    ///
    /// The seam must hold one position per row, in row order, each inside the
    /// carved image, and the image must be at least two columns wide;
    /// otherwise it is refused and the view is left as it was. On success the
    /// width shrinks by one and the height stays.
    pub fn remove_seam(&mut self, seam: &[Pos]) -> (r: Result<(), SeamError>)
        requires
            old(self).wf(),
        ensures
            final(self).wf(),
            r == match seam_error(
                old(self).spec_dimensions().1 as nat,
                old(self).spec_dimensions().0 as nat,
                seam@,
            ) {
                Some(e) => Err(e),
                None => Ok(()),
            },
            final(self).spec_source() == old(self).spec_source(),
            final(self).columns().len() == final(self).spec_dimensions().1,
            rows_of_width(final(self).columns(), final(self).spec_dimensions().0 as nat),
            r.is_ok() ==> final(self).columns() == rows_without_seam(old(self).columns(), seam@),
            r.is_ok() ==> final(self).removed_count() == old(self).removed_count() + 1,
            r.is_ok() ==> final(self).spec_dimensions() == (
                (old(self).spec_dimensions().0 - 1) as u32,
                old(self).spec_dimensions().1,
            ),
            r.is_err() ==> *final(self) == *old(self),
    {
        let ghost w = self.img.spec_dimensions().0;
        let ghost before = self.pos_aliases@;
        let r = self.pos_aliases.remove_seam(seam);
        if r.is_ok() {
            self.removed = self.removed + 1;
            proof {
                assert forall|y: int, x: int|
                    0 <= y < self.pos_aliases@.len() && 0 <= x < w - self.removed implies #[trigger] self.pos_aliases@[y][x] < w by {
                    assert(self.pos_aliases@[y] == before[y].remove(seam@[y].0 as int));
                    if x >= seam@[y].0 {
                        assert(self.pos_aliases@[y][x] == before[y][x + 1]);
                    }
                }
            }
        }
        r
    }

    /// Maps a position of the carved image to the source position it shows.
    fn transform_pos(&self, pos: Pos) -> (r: Pos)
        requires
            self.wf(),
            pos.0 < self.spec_dimensions().0,
            pos.1 < self.spec_dimensions().1,
        ensures
            r == Pos(self.columns()[pos.1 as int][pos.0 as int], pos.1),
            r.0 < self.spec_source().spec_dimensions().0,
    {
        Pos(self.pos_aliases.lookup(pos), pos.1)
    }

    /// The source image that this view reads from.
    pub fn source(&self) -> (r: &'a I)
        ensures
            *r == self.spec_source(),
    {
        self.img
    }
}

impl<'a, I: ImageView> ImageView for Carved<'a, I> {
    open spec fn well_formed(&self) -> bool {
        self.wf()
    }

    open spec fn spec_dimensions(&self) -> (u32, u32) {
        (
            (self.spec_source().spec_dimensions().0 - self.removed_count()) as u32,
            self.spec_source().spec_dimensions().1,
        )
    }

    open spec fn spec_pixel(&self, x: u32, y: u32) -> Seq<u8> {
        self.spec_source().spec_pixel(self.columns()[y as int][x as int], y)
    }

    fn dimensions(&self) -> (r: (u32, u32)) {
        let (w, h) = self.img.dimensions();
        (w - self.removed, h)
    }

    fn bounds(&self) -> (r: (u32, u32, u32, u32)) {
        let (w, h) = self.dimensions();
        (0, 0, w, h)
    }

    fn get_pixel(&self, x: u32, y: u32) -> (r: [u8; 4]) {
        let Pos(u, v) = self.transform_pos(Pos(x, y));
        self.img.get_pixel(u, v)
    }
}

/// Removing two seams from a view reads the same pixels in either order,
/// once each seam is written in the columns of the view it is removed from:
/// `one` had `first` and then `second` removed from `start`, `other` had
/// `second` (in the columns before `first` went) and then `first` (in the
/// columns left after that).
pub proof fn lemma_view_seam_order<'a, I: ImageView>(
    start: Carved<'a, I>,
    one: Carved<'a, I>,
    other: Carved<'a, I>,
    first: Seq<Pos>,
    second: Seq<Pos>,
)
    requires
        start.wf(),
        one.wf(),
        other.wf(),
        seam_error(
            start.spec_dimensions().1 as nat,
            start.spec_dimensions().0 as nat,
            first,
        ) is None,
        seam_error(
            start.spec_dimensions().1 as nat,
            (start.spec_dimensions().0 - 1) as nat,
            second,
        ) is None,
        one.spec_source() == start.spec_source(),
        other.spec_source() == start.spec_source(),
        one.removed_count() == start.removed_count() + 2,
        other.removed_count() == start.removed_count() + 2,
        one.columns() == rows_without_seam(rows_without_seam(start.columns(), first), second),
        other.columns() == rows_without_seam(
            rows_without_seam(start.columns(), seam_before(first, second)),
            seam_after(seam_before(first, second), first),
        ),
    ensures
        one.spec_dimensions() == other.spec_dimensions(),
        forall|x: u32, y: u32|
            x < one.spec_dimensions().0 && y < one.spec_dimensions().1 ==> #[trigger] one.spec_pixel(
                x,
                y,
            ) == other.spec_pixel(x, y),
{
    start.lemma_columns_shape();
    lemma_seam_order(start.columns(), start.spec_dimensions().0 as nat, first, second);
}

} // verus!
