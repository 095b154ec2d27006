use deep_thought::array::{Array1, Array2, Array3};
use deep_thought::array_trait::{Array, Initialize};
use deep_thought::error;

#[test]
fn alloc_dealloc() {
    let mut a: Array1<usize> = Array1::uninitialized(&[2]);

    // Write
    let ref_1 = a._get_mut(0).unwrap();
    *ref_1 = 3;

    // Read
    let ref_2 = a._get(0).unwrap();

    assert_eq!(*ref_2, 3);
}

#[test]
fn clone() {
    let mut a: Array1<usize> = Array1::fill(0, &[2]);
    let mut b = a.clone();

    // assert that the arrays can be mutated independently of each other
    *a.get_mut(&[1]).unwrap() = 3;
    *b.get_mut(&[1]).unwrap() = 4;
    assert_eq!(*a.get(&[1]).unwrap(), 3);
    assert_eq!(*b.get(&[1]).unwrap(), 4);
}

#[test]
fn index() -> Result<(), error::Error> {
    let mut a: Array1<usize> = Array1::fill(1, &[3]);
    *a.get_mut(&[0])? = 3;
    assert_eq!(*a.get(&[0])?, 3);
    Ok(())
}

#[test]
fn calc_internal_index() -> Result<(), error::Error> {
    let a: Array3<u8> = Array3::fill(1, &[2, 2, 2]);

    assert_eq!(a._get_internal_ix(&[0, 0, 0])?, 0);
    assert_eq!(a._get_internal_ix(&[0, 0, 1])?, 1);
    assert_eq!(a._get_internal_ix(&[0, 1, 0])?, 2);
    assert_eq!(a._get_internal_ix(&[0, 1, 1])?, 3);
    assert_eq!(a._get_internal_ix(&[1, 0, 0])?, 4);
    assert_eq!(a._get_internal_ix(&[1, 0, 1])?, 5);
    assert_eq!(a._get_internal_ix(&[1, 1, 0])?, 6);
    assert_eq!(a._get_internal_ix(&[1, 1, 1])?, 7);
    Ok(())
}

#[test]
fn fill() -> Result<(), error::Error> {
    let a: Array1<u8> = Array1::fill(1, &[3]);
    assert_eq!(*a.get(&[0])?, 1);
    assert_eq!(*a.get(&[1])?, 1);
    assert_eq!(*a.get(&[2])?, 1);
    Ok(())
}

#[test]
fn partial_eq() {
    let a: Array1<usize> = Array1::fill(0, &[2]); // equal to a and same object
    let b: Array1<usize> = Array1::fill(0, &[2]); // equal to a and  different object
    let c: Array1<usize> = Array1::fill(1, &[2]); // not equal to a and different object

    assert!(a == a);
    assert!(a == b);
    assert!(a != c);
}

#[test]
fn borrow() -> Result<(), error::Error> {
    let mut a: Array2<usize> = Array2::fill(0, &[4, 4]);
    *a.get_mut(&[1, 1])? = 1;

    let b = a.borrow(&[1, 1], &[2, 2])?;

    assert_eq!(b.get(&[0, 0])?, a.get(&[1, 1])?);
    Ok(())
}

#[test]
fn add() {
    let a: Array2<usize> = Array2::fill(1, &[2, 2]);
    let b: Array2<usize> = Array2::fill(2, &[2, 2]);
    let c: Array2<usize> = Array2::fill(3, &[2, 2]);

    assert!(a.add(&b) == c);
}

#[test]
fn fill_every_read_equals_value() -> Result<(), error::Error> {
    // every read of a filled array yields the fill value, and the size is the
    // product of the axis lengths
    let a: Array3<usize> = Array3::fill(9, &[2, 3, 4]);
    assert_eq!(a.size(), 24);
    for i in 0..2 {
        for j in 0..3 {
            for k in 0..4 {
                assert_eq!(*a.get(&[i, j, k])?, 9);
            }
        }
    }
    Ok(())
}

#[test]
fn get_agrees_with_flat_get() -> Result<(), error::Error> {
    let mut a: Array2<u8> = Array2::fill(0, &[2, 3]);
    for i in 0..2usize {
        for j in 0..3usize {
            *a.get_mut(&[i, j])? = (10 * i + j) as u8;
        }
    }
    for i in 0..2usize {
        for j in 0..3usize {
            // the flat offset of (i, j) in a packed (2, 3) layout
            let offset = i * 3 + j;
            assert_eq!(a.get(&[i, j])?, a._get(offset)?);
        }
    }
    Ok(())
}

#[test]
fn out_of_bounds_reports_axis_and_bound() {
    let a: Array2<usize> = Array2::fill(0, &[2, 3]);
    match a.get(&[1, 5]) {
        Err(error::Error::IndexOutOfBounds { ix, axis_ix, axis_size }) => {
            assert_eq!(ix, 5);
            assert_eq!(axis_ix, 1);
            assert_eq!(axis_size, 3);
            assert!(ix >= axis_size);
        },
        _ => panic!("expected an index error"),
    }
}

#[test]
fn offset_out_of_bounds_reports_bound() {
    let a: Array1<usize> = Array1::fill(0, &[3]);
    match a._get(3) {
        Err(error::Error::OffsetOutOfBounds { offset, bound }) => {
            assert_eq!(offset, 3);
            assert_eq!(bound, 3);
        },
        _ => panic!("expected an offset error"),
    }
}

#[test]
fn view_reads_parent_region() -> Result<(), error::Error> {
    // fill a (4, 4) array with zero, set element (1, 1) to one, borrow the
    // view [(1, 1), (3, 3)): reading (0, 0) from the view yields one
    let mut a: Array2<usize> = Array2::fill(0, &[4, 4]);
    *a.get_mut(&[1, 1])? = 1;
    let v = a.borrow(&[1, 1], &[3, 3])?;
    assert_eq!(*v.get(&[0, 0])?, 1);
    assert_eq!(*v.get(&[0, 1])?, 0);
    assert_eq!(*v.get(&[1, 1])?, 0);
    // the view reports the region's shape and the parent's stride
    assert_eq!(v.shape(), [2, 2]);
    assert_eq!(v.stride(), a.stride());
    assert_eq!(v.size(), 4);
    Ok(())
}

#[test]
fn view_of_view() -> Result<(), error::Error> {
    let mut a: Array2<usize> = Array2::fill(0, &[4, 4]);
    *a.get_mut(&[2, 2])? = 7;
    let v = a.borrow(&[1, 1], &[4, 4])?;
    let w = v.borrow(&[1, 1], &[3, 3])?;
    assert_eq!(*w.get(&[0, 0])?, 7);
    Ok(())
}

#[test]
fn empty_view_is_allowed() -> Result<(), error::Error> {
    let a: Array1<usize> = Array1::fill(0, &[3]);
    let v = a.borrow(&[1], &[1])?;
    assert_eq!(v.size(), 0);
    assert!(v.get(&[0]).is_err());
    Ok(())
}

#[test]
fn reshape_transfers_allocation() -> Result<(), error::Error> {
    let mut a: Array2<u8> = Array2::fill(0, &[2, 3]);
    *a.get_mut(&[1, 2])? = 5;
    let b = a.reshape(&[3, 2])?;
    assert_eq!(b.shape(), [3, 2]);
    // the packed layout is kept: flat offset 5 still holds the value
    assert_eq!(*b.get(&[2, 1])?, 5);
    Ok(())
}

#[test]
fn reshape_incompatible_shape_is_reported() {
    let a: Array2<u8> = Array2::fill(0, &[2, 3]);
    match a.reshape(&[4, 2]) {
        Err(error::Error::ReshapeIncompatibleShape { size, new_shape }) => {
            assert_eq!(size, 6);
            assert_eq!(new_shape, vec![4, 2]);
        },
        _ => panic!("expected a reshape error"),
    }
}

#[test]
fn internal_index_uses_byte_strides() -> Result<(), error::Error> {
    // usize elements are eight bytes wide, so the byte offsets are the flat
    // element offsets scaled by eight
    let a: Array2<usize> = Array2::fill(0, &[2, 3]);
    assert_eq!(a._get_internal_ix(&[0, 1])?, 8);
    assert_eq!(a._get_internal_ix(&[1, 0])?, 24);
    assert_eq!(a._get_internal_ix(&[1, 2])?, 40);
    Ok(())
}

#[test]
fn write_through_region() -> Result<(), error::Error> {
    // a view borrowed at (1, 1) reads its (0, 0) from the parent's (1, 1):
    // writing through the region is visible to the view
    let mut a: Array2<usize> = Array2::fill(0, &[4, 4]);
    a.set_in_view(&[1, 1], &[0, 0], 1)?;
    a.set_in_view(&[1, 1], &[1, 0], 2)?;
    let v = a.borrow(&[1, 1], &[3, 3])?;
    assert_eq!(*v.get(&[0, 0])?, 1);
    assert_eq!(*v.get(&[1, 0])?, 2);
    assert_eq!(*a.get(&[1, 1])?, 1);
    assert_eq!(*a.get(&[2, 1])?, 2);
    // an out-of-range region write reports the summed index
    match a.set_in_view(&[3, 3], &[1, 0], 9) {
        Err(error::Error::IndexOutOfBounds { ix, axis_ix, axis_size }) => {
            assert_eq!(ix, 4);
            assert_eq!(axis_ix, 0);
            assert_eq!(axis_size, 4);
        },
        _ => panic!("expected an index error"),
    }
    Ok(())
}
