use seamcarving::carved::Carved;
use seamcarving::materialize::image_view_to_buffer;
use seamcarving::matrix::{Matrix, SeamError};
use seamcarving::pos::Pos;
use seamcarving::view::{ImageView, RgbaBuffer};

/// A `width × height` image whose pixel `(x, y)` is `[x, y, x + y, 255]`.
fn labeled(width: u32, height: u32) -> RgbaBuffer {
    let mut bytes = Vec::new();
    for y in 0..height {
        for x in 0..width {
            bytes.extend_from_slice(&[x as u8, y as u8, (x + y) as u8, 255]);
        }
    }
    RgbaBuffer::from_raw(width, height, bytes).unwrap()
}

fn matrix_rows(m: &Matrix) -> Vec<Vec<u32>> {
    let mut rows = Vec::new();
    for y in 0..m.height() {
        let mut row = Vec::new();
        for x in 0..m.width() {
            row.push(m.lookup(Pos(x as u32, y as u32)));
        }
        rows.push(row);
    }
    rows
}

fn view_columns<I: ImageView>(view: &Carved<I>) -> Vec<Vec<u8>> {
    let (w, h) = view.dimensions();
    let mut rows = Vec::new();
    for y in 0..h {
        let mut row = Vec::new();
        for x in 0..w {
            row.push(view.get_pixel(x, y)[0]);
        }
        rows.push(row);
    }
    rows
}

#[test]
fn fresh_view_reads_the_source() {
    let img = labeled(5, 4);
    let view = Carved::new(&img);
    assert_eq!(view.dimensions(), img.dimensions());
    assert_eq!(view.bounds(), (0, 0, 5, 4));
    for y in 0..4 {
        for x in 0..5 {
            assert_eq!(view.get_pixel(x, y), img.get_pixel(x, y));
        }
    }
}

#[test]
fn width_drops_by_one_per_seam() {
    let img = labeled(5, 3);
    let mut view = Carved::new(&img);
    assert_eq!(view.dimensions(), (5, 3));
    assert_eq!(view.remove_seam(&[Pos(0, 0), Pos(1, 1), Pos(2, 2)]), Ok(()));
    assert_eq!(view.dimensions(), (4, 3));
    assert_eq!(view.remove_seam(&[Pos(3, 0), Pos(3, 1), Pos(3, 2)]), Ok(()));
    assert_eq!(view.dimensions(), (3, 3));
    assert_eq!(view.bounds(), (0, 0, 3, 3));
}

#[test]
fn seam_remaps_columns() {
    let img = labeled(4, 3);
    let mut view = Carved::new(&img);
    assert_eq!(view.remove_seam(&[Pos(1, 0), Pos(2, 1), Pos(1, 2)]), Ok(()));
    assert_eq!(
        view_columns(&view),
        vec![vec![0, 2, 3], vec![0, 1, 3], vec![0, 2, 3]]
    );
    // The rows are still read from their own source row.
    assert_eq!(view.get_pixel(1, 1), [1, 1, 2, 255]);
    assert_eq!(view.get_pixel(2, 2), [3, 2, 5, 255]);
}

#[test]
fn seam_order_gives_same_content() {
    let img = labeled(5, 2);
    // First 1 then 2 (in the columns left after the first).
    let mut a = Carved::new(&img);
    a.remove_seam(&[Pos(1, 0), Pos(3, 1)]).unwrap();
    a.remove_seam(&[Pos(2, 0), Pos(0, 1)]).unwrap();
    // The same two seams, the second one first, each in its own columns.
    let mut b = Carved::new(&img);
    b.remove_seam(&[Pos(3, 0), Pos(0, 1)]).unwrap();
    b.remove_seam(&[Pos(1, 0), Pos(2, 1)]).unwrap();
    assert_eq!(view_columns(&a), vec![vec![0, 2, 4], vec![1, 2, 4]]);
    assert_eq!(view_columns(&a), view_columns(&b));
    // Repeating the same order gives the same content again.
    let mut c = Carved::new(&img);
    c.remove_seam(&[Pos(1, 0), Pos(3, 1)]).unwrap();
    c.remove_seam(&[Pos(2, 0), Pos(0, 1)]).unwrap();
    assert_eq!(view_columns(&a), view_columns(&c));
}

#[test]
fn materialize_fresh_view_is_source() {
    let img = labeled(3, 2);
    let raw = labeled(3, 2).into_raw();
    let view = Carved::new(&img);
    let out = image_view_to_buffer(&view).unwrap();
    assert_eq!(out.dimensions(), (3, 2));
    assert_eq!(out.into_raw(), raw);
}

#[test]
fn materialize_carved_view_matches_get_pixel() {
    let img = labeled(4, 3);
    let mut view = Carved::new(&img);
    view.remove_seam(&[Pos(1, 0), Pos(2, 1), Pos(1, 2)]).unwrap();
    let out = image_view_to_buffer(&view).unwrap();
    assert_eq!(out.dimensions(), (3, 3));
    for y in 0..3 {
        for x in 0..3 {
            assert_eq!(out.get_pixel(x, y), view.get_pixel(x, y));
        }
    }
    assert_eq!(
        out.into_raw(),
        vec![
            0, 0, 0, 255, 2, 0, 2, 255, 3, 0, 3, 255, //
            0, 1, 1, 255, 1, 1, 2, 255, 3, 1, 4, 255, //
            0, 2, 2, 255, 2, 2, 4, 255, 3, 2, 5, 255,
        ]
    );
}

#[test]
fn materialize_nested_view() {
    let img = labeled(4, 2);
    let mut inner = Carved::new(&img);
    inner.remove_seam(&[Pos(0, 0), Pos(0, 1)]).unwrap();
    let mut outer = Carved::new(&inner);
    outer.remove_seam(&[Pos(2, 0), Pos(1, 1)]).unwrap();
    assert_eq!(outer.dimensions(), (2, 2));
    let out = image_view_to_buffer(&outer).unwrap();
    assert_eq!(out.get_pixel(0, 0), [1, 0, 1, 255]);
    assert_eq!(out.get_pixel(1, 0), [2, 0, 2, 255]);
    assert_eq!(out.get_pixel(0, 1), [1, 1, 2, 255]);
    assert_eq!(out.get_pixel(1, 1), [3, 1, 4, 255]);
}

#[test]
fn seam_refused_at_width_one() {
    let img = labeled(2, 2);
    let mut view = Carved::new(&img);
    view.remove_seam(&[Pos(0, 0), Pos(1, 1)]).unwrap();
    assert_eq!(view.dimensions(), (1, 2));
    let before = view_columns(&view);
    assert_eq!(
        view.remove_seam(&[Pos(0, 0), Pos(0, 1)]),
        Err(SeamError::TooNarrow)
    );
    assert_eq!(view.dimensions(), (1, 2));
    assert_eq!(view_columns(&view), before);
}

#[test]
fn matrix_refusal_keeps_cells() {
    let mut m = Matrix::identity(2, 3);
    m.remove_seam(&[Pos(1, 0), Pos(0, 1), Pos(1, 2)]).unwrap();
    let before = matrix_rows(&m);
    assert_eq!(before, vec![vec![0], vec![1], vec![0]]);
    assert_eq!(
        m.remove_seam(&[Pos(0, 0), Pos(0, 1), Pos(0, 2)]),
        Err(SeamError::TooNarrow)
    );
    assert_eq!(matrix_rows(&m), before);
    assert_eq!(m.width(), 1);
}

#[test]
fn matrix_identity_and_removal() {
    let mut m = Matrix::identity(4, 2);
    assert_eq!(matrix_rows(&m), vec![vec![0, 1, 2, 3], vec![0, 1, 2, 3]]);
    m.remove_seam(&[Pos(3, 0), Pos(0, 1)]).unwrap();
    assert_eq!(matrix_rows(&m), vec![vec![0, 1, 2], vec![1, 2, 3]]);
    assert_eq!(m.width(), 3);
    assert_eq!(m.height(), 2);
}

#[test]
fn seam_of_wrong_length_is_refused() {
    let img = labeled(3, 3);
    let mut view = Carved::new(&img);
    assert_eq!(
        view.remove_seam(&[Pos(0, 0), Pos(0, 1)]),
        Err(SeamError::WrongLength)
    );
    assert_eq!(view.dimensions(), (3, 3));
    assert_eq!(view_columns(&view), vec![vec![0, 1, 2]; 3]);
}

#[test]
fn seam_outside_row_is_refused() {
    let img = labeled(3, 2);
    let mut view = Carved::new(&img);
    assert_eq!(
        view.remove_seam(&[Pos(0, 0), Pos(3, 1)]),
        Err(SeamError::Misplaced)
    );
    assert_eq!(
        view.remove_seam(&[Pos(0, 1), Pos(0, 0)]),
        Err(SeamError::Misplaced)
    );
    assert_eq!(view.dimensions(), (3, 2));
    assert_eq!(view_columns(&view), vec![vec![0, 1, 2]; 2]);
}

#[test]
fn empty_image() {
    let img = RgbaBuffer::from_raw(0, 0, Vec::new()).unwrap();
    let mut view = Carved::new(&img);
    assert_eq!(view.dimensions(), (0, 0));
    assert_eq!(view.remove_seam(&[]), Err(SeamError::TooNarrow));
    let out = image_view_to_buffer(&view).unwrap();
    assert_eq!(out.dimensions(), (0, 0));
}

#[test]
fn buffer_from_raw_checks_length() {
    assert!(RgbaBuffer::from_raw(2, 2, vec![0; 15]).is_none());
    let b = RgbaBuffer::from_raw(2, 1, vec![1, 2, 3, 4, 5, 6, 7, 8]).unwrap();
    assert_eq!(b.dimensions(), (2, 1));
    assert_eq!(b.get_pixel(1, 0), [5, 6, 7, 8]);
    assert_eq!(b.into_raw(), vec![1, 2, 3, 4, 5, 6, 7, 8]);
}

#[test]
fn source_is_the_borrowed_image() {
    let img = labeled(2, 2);
    let view = Carved::new(&img);
    assert!(std::ptr::eq(view.source(), &img));
}

#[test]
fn buffer_keeps_extra_bytes() {
    let b = RgbaBuffer::from_raw(1, 1, vec![9, 8, 7, 6, 5]).unwrap();
    assert_eq!(b.get_pixel(0, 0), [9, 8, 7, 6]);
    assert_eq!(b.into_raw(), vec![9, 8, 7, 6, 5]);
}

#[test]
fn materialized_buffer_has_exact_length() {
    let mut bytes = labeled(3, 2).into_raw();
    bytes.extend_from_slice(&[1, 2, 3]);
    let img = RgbaBuffer::from_raw(3, 2, bytes.clone()).unwrap();
    let view = Carved::new(&img);
    let out = image_view_to_buffer(&view).unwrap();
    assert_eq!(out.into_raw(), bytes[..24].to_vec());
}

#[test]
fn wide_empty_buffer() {
    let b = RgbaBuffer::from_raw(u32::MAX, 0, Vec::new()).unwrap();
    assert_eq!(b.dimensions(), (u32::MAX, 0));
}
