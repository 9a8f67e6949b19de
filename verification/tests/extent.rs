use netcdf::error;
use netcdf::extent::{Extent, Extents};

fn take_extent<E>(e: E) -> error::Result<Extent>
where
    E: TryInto<Extent>,
    E::Error: Into<error::Error>,
{
    e.try_into().map_err(|e| e.into())
}

#[test]
fn test_extent() -> error::Result<()> {
    let _ = take_extent(1)?;
    let _ = take_extent(1..)?;
    let _ = take_extent(1..5)?;
    let _ = take_extent(..5)?;
    let _ = take_extent(..=5)?;
    let _ = take_extent(4..=5)?;

    let _ = take_extent((1..5).step_by(2))?;
    // let _ = take_extent((..5).step_by(2))?;
    // let _ = take_extent((..=5).step_by(2))?;
    let _ = take_extent((4..=9).step_by(2))?;

    // Empty slice
    let _ = take_extent(1..0)?;
    let _ = take_extent(1..=1)?;
    let _ = take_extent(1..=2)?;

    Ok(())
}

#[test]
fn extent_conversions_give_exact_values() {
    assert_eq!(Extent::from(3), Extent::Index(3));
    assert_eq!(Extent::from(2..), Extent::Slice { start: 2, stride: 1 });
    assert_eq!(Extent::from(1..5), Extent::SliceEnd { start: 1, end: 5, stride: 1 });
    assert_eq!(Extent::from(..5), Extent::SliceEnd { start: 0, end: 5, stride: 1 });
    assert_eq!(Extent::from(..=5), Extent::SliceEnd { start: 0, end: 6, stride: 1 });
    assert_eq!(Extent::from(4..=5), Extent::SliceEnd { start: 4, end: 6, stride: 1 });
    assert_eq!(
        Extent::from((1..6).step_by(2)),
        Extent::SliceEnd { start: 1, end: 5, stride: 2 }
    );
    assert_eq!(
        Extent::from((4..=9).step_by(2)),
        Extent::SliceEnd { start: 4, end: 9, stride: 2 }
    );
    assert_eq!(
        Extent::from((1..0).step_by(2)),
        Extent::SliceCount { start: 0, count: 0, stride: 1 }
    );
    assert_eq!(
        Extent::from((3..4).step_by(2)),
        Extent::SliceCount { start: 3, count: 1, stride: 1 }
    );
}

#[test]
fn set_stride_leaves_index_alone() {
    let mut e = Extent::from(1..9);
    e.set_stride(3);
    assert_eq!(e, Extent::SliceEnd { start: 1, end: 9, stride: 3 });
    let mut i = Extent::Index(4);
    i.set_stride(3);
    assert_eq!(i, Extent::Index(4));
}

#[test]
fn start_count_stride_of_all_is_whole_variable() {
    let e = Extents::All;
    let (start, count, stride) = e.get_start_count_stride(&[4, 7]).unwrap();
    assert_eq!(start, vec![0, 0]);
    assert_eq!(count, vec![4, 7]);
    assert_eq!(stride, vec![1, 1]);
}

#[test]
fn start_count_stride_counts_each_extent() {
    let e: Extents = vec![
        Extent::Index(2),
        Extent::Slice { start: 1, stride: 3 },
        Extent::SliceEnd { start: 2, end: 9, stride: 2 },
        Extent::SliceCount { start: 5, count: 4, stride: 7 },
        Extent::Slice { start: 0, stride: -1 },
    ]
    .into();
    let (start, count, stride) = e.get_start_count_stride(&[10, 10, 10, 10, 10]).unwrap();
    assert_eq!(start, vec![2, 1, 2, 5, 0]);
    assert_eq!(count, vec![1, 3, 4, 4, 0]);
    assert_eq!(stride, vec![1, 3, 2, 7, -1]);
}

#[test]
fn start_count_stride_rejects_wrong_dimensionality() {
    let e: Extents = vec![Extent::Index(2)].into();
    match e.get_start_count_stride(&[3, 4]) {
        Err(error::Error::DimensionMismatch { wanted, actual }) => {
            assert_eq!(wanted, 2);
            assert_eq!(actual, 1);
        }
        _ => panic!("expected a dimension mismatch"),
    }
}

#[test]
fn start_and_count_must_have_same_length() {
    let start = [1usize, 2];
    let count = [3usize];
    assert!(Extents::try_from((&start[..], &count[..])).is_err());
    let e = Extents::try_from((vec![1usize, 2], vec![3usize, 4])).unwrap();
    let (s, c, st) = e.get_start_count_stride(&[10, 10]).unwrap();
    assert_eq!(s, vec![1, 2]);
    assert_eq!(c, vec![3, 4]);
    assert_eq!(st, vec![1, 1]);
    assert!(Extents::try_from((vec![1usize], vec![3usize], vec![1isize, 2])).is_err());
}

fn take_extents<E>(e: E) -> error::Result<Extents>
where
    E: TryInto<Extents>,
    E::Error: Into<error::Error>,
{
    e.try_into().map_err(|e| e.into())
}

#[test]
fn test_extents() -> error::Result<()> {
    // This is the "All" type
    let extent = take_extents(..)?;
    match extent {
        Extents::All => {}
        _ => panic!(),
    }

    // These are for 1D specs
    let _ = take_extents(1)?;
    let _ = take_extents(1..)?;
    let _ = take_extents(1..5)?;
    let _ = take_extents(..5)?;
    let _ = take_extents(..=5)?;
    let _ = take_extents(4..=5)?;
    let _ = take_extents((1..5).step_by(2))?;
    let _ = take_extents((4..=9).step_by(2))?;

    // These are multidimensional

    // Array
    let _ = take_extents([.., ..])?;
    let _ = take_extents([1, 2])?;
    let _ = take_extents([1.., 2..])?;
    let _ = take_extents([1..5, 2..6])?;
    let _ = take_extents([..5, ..6])?;
    let _ = take_extents([..=5, ..=6])?;
    let _ = take_extents([4..=50, 5..=8])?;
    let _ = take_extents([(1..5).step_by(2), (2..89).step_by(3)])?;
    let _ = take_extents([(4..=9).step_by(2), (5..=20).step_by(3)])?;

    // Slice
    let _ = take_extents([.., ..].as_slice())?;
    let _ = take_extents([1, 2].as_slice())?;
    let _ = take_extents([1.., 2..].as_slice())?;
    let _ = take_extents([1..5, 2..6].as_slice())?;
    let _ = take_extents([..5, ..6].as_slice())?;
    let _ = take_extents([..=5, ..=6].as_slice())?;
    let _ = take_extents([4..=5, 5..=6].as_slice())?;
    let _ = take_extents([(1..5).step_by(2), (2..89).step_by(3)].as_slice())?;
    let _ = take_extents([(4..=9).step_by(2), (5..=20).step_by(3)].as_slice())?;

    // Vec
    let _ = take_extents(vec![.., ..])?;
    let _ = take_extents(vec![1, 2])?;
    let _ = take_extents(vec![1.., 2..])?;
    let _ = take_extents(vec![1..5, 2..6])?;
    let _ = take_extents(vec![..5, ..6])?;
    let _ = take_extents(vec![..=5, ..=6])?;
    let _ = take_extents(vec![4..=5, 5..=6])?;
    let _ = take_extents(vec![(1..5).step_by(2), (2..89).step_by(3)])?;
    let _ = take_extents(vec![(4..=9).step_by(2), (5..=20).step_by(3)])?;

    // Tuple
    let _ = take_extents((1_usize.., 2_usize))?;
    let _ = take_extents((1.., 2))?;
    let _ = take_extents((2, (1..10).step_by(3)))?;

    // (start, count)
    let _ = take_extents(([1, 2], [3, 4]))?;
    let _ = take_extents(([1, 2].as_slice(), [3, 4].as_slice()))?;
    let _ = take_extents((&[1, 2], &[3, 4]))?;
    let _ = take_extents((vec![1, 2], vec![3, 4]))?;

    // (start, count, stride)
    let _ = take_extents(([1, 2], [3, 4], [4, 5]))?;
    let _ = take_extents(([1, 2].as_slice(), [3, 4].as_slice(), [4, 5].as_slice()))?;
    let _ = take_extents((&[1, 2], &[3, 4], &[4, 5]))?;
    let _ = take_extents((vec![1, 2], vec![3, 4], vec![4, 5]))?;

    // Use of borrowed Extents
    let e: Extents = (..).into();
    let _ = take_extents(&e)?;
    let _ = take_extents(e)?;

    Ok(())
}

#[test]
fn stepped_ranges_end_at_their_last_item() {
    match Extents::from([(1..8).step_by(3), (5..5).step_by(2)]) {
        Extents::Extent(v) => assert_eq!(
            v,
            vec![
                Extent::SliceEnd { start: 1, end: 7, stride: 3 },
                Extent::SliceCount { start: 0, count: 0, stride: 1 }
            ]
        ),
        Extents::All => panic!("expected two extents"),
    }
    match Extents::from(vec![(0..=10).step_by(5), (7..=7).step_by(4)]) {
        Extents::Extent(v) => assert_eq!(
            v,
            vec![
                Extent::SliceEnd { start: 0, end: 11, stride: 5 },
                Extent::SliceCount { start: 7, count: 1, stride: 1 }
            ]
        ),
        Extents::All => panic!("expected two extents"),
    }
}
