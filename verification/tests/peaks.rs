use wavefoam::peaks::{Peak, SlicePeakExt};
use wavefoam::utils::IterExt;

#[test]
fn peaks_4() {
    let samples: &[i32] = &[
        0, 14, -34, 21, // chunk 1
        -13, 53, 21, 9, // chunk 2
    ];
    let peaks: Vec<_> = samples.chunks(4).map(SlicePeakExt::peak).collect();

    assert_eq!(
        peaks,
        &[Peak { min: -34, max: 21 }, Peak { min: -13, max: 53 }]
    );
}

#[test]
fn peaks_peak_8() {
    let samples: &[i32] = &[
        0, 14, -34, 21, // chunk 1
        -13, 53, 21, 9, // chunk 2
    ];
    let peak = SlicePeakExt::peak(samples);

    assert_eq!(peak, Peak { min: -34, max: 53 });
}

#[test]
fn peak_8() {
    let samples: &[i32] = &[0, 14, -34, 21, -13, 53, 21, 9];
    let peak = Peak::from_iter(samples);

    assert_eq!(peak, Some(Peak { min: -34, max: 53 }));
}

#[test]
fn only_positive() {
    let samples: &[i32] = &[14, 21, 53, 21, 9];
    let peak = Peak::from_iter(samples);

    assert_eq!(peak, Some(Peak { min: 9, max: 53 }));
}

#[test]
fn from_iter_of_nothing_is_none() {
    let samples: &[i32] = &[];
    assert_eq!(Peak::from_iter(samples), None);
}

#[test]
fn from_iter_single_sample() {
    assert_eq!(Peak::from_iter(&[-7]), Some(Peak { min: -7, max: -7 }));
}

#[test]
fn from_iter_only_negative() {
    let samples: &[i32] = &[-14, -21, -53, -9];
    assert_eq!(Peak::from_iter(samples), Some(Peak { min: -53, max: -9 }));
}

#[test]
fn from_iter_extreme_values() {
    let samples: &[i32] = &[i32::MAX, 0, i32::MIN];
    assert_eq!(
        Peak::from_iter(samples),
        Some(Peak { min: i32::MIN, max: i32::MAX })
    );
}

#[test]
fn slice_peak_only_positive() {
    let samples: &[i32] = &[2, 3, 5];
    assert_eq!(samples.peak(), Peak { min: 2, max: 5 });
    let negative: &[i32] = &[-2, -5];
    assert_eq!(negative.peak(), Peak { min: -5, max: -2 });
}

#[test]
fn slice_peak_of_nothing_is_zero() {
    let samples: &[i32] = &[];
    assert_eq!(samples.peak(), Peak { min: 0, max: 0 });
}

#[test]
fn slice_peak_agrees_with_from_iter() {
    let samples: &[i32] = &[4, 9, 6];
    assert_eq!(Some(samples.peak()), Peak::from_iter(samples));
}

#[test]
fn peak_of_concatenation_merges_peaks() {
    let a: &[i32] = &[3, -1, 8];
    let b: &[i32] = &[10, 2];
    let ab: &[i32] = &[3, -1, 8, 10, 2];
    let pa = Peak::from_iter(a).unwrap();
    let pb = Peak::from_iter(b).unwrap();
    let pab = Peak::from_iter(ab).unwrap();
    assert_eq!(pab.min, pa.min.min(pb.min));
    assert_eq!(pab.max, pa.max.max(pb.max));
}

#[test]
fn reduce_with_folds_from_first_item() {
    let items: &[i32] = &[1, 2, 3, 4];
    let res = items.reduce_with(|x| vec![x], |mut acc: Vec<i32>, x| {
        acc.push(x * 10);
        acc
    });
    assert_eq!(res, Some(vec![1, 20, 30, 40]));
}

#[test]
fn reduce_with_of_nothing_is_none() {
    let items: &[i32] = &[];
    let res = items.reduce_with(|x| x, |a, b| a + b);
    assert_eq!(res, None);
}

#[test]
fn reduce_with_single_item_applies_init_only() {
    let items: &[i32] = &[5];
    let res = items.reduce_with(|x| x * 3, |a, b| a + b);
    assert_eq!(res, Some(15));
}
