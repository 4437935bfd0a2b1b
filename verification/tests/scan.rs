use wavefoam::shader::uniform_block;
use wavefoam::image::scan_image_data;
use wavefoam::peaks::Peak;
use wavefoam::scan::PeakScan;
use wavefoam::texture::{Extent3d, PeakTexture};

#[test]
fn scan_from_iter_chunks_of_four() {
    let samples: &[i32] = &[0, 14, -34, 21, -13, 53, 21, 9];
    let scan = PeakScan::from_iter(samples, 4);
    assert_eq!(scan.resolution(), 2);
    assert_eq!(
        scan.peaks(),
        &[Peak { min: -34, max: 21 }, Peak { min: -13, max: 53 }]
    );
}

#[test]
fn scan_last_chunk_is_shorter() {
    let samples: &[i32] = &[1, 2, 3, 4, 5, 6, 7];
    let scan = PeakScan::from_iter(samples, 3);
    assert_eq!(scan.resolution(), 3);
    assert_eq!(
        scan.peaks(),
        &[
            Peak { min: 1, max: 3 },
            Peak { min: 4, max: 6 },
            Peak { min: 7, max: 7 }
        ]
    );
}

#[test]
fn scan_chunk_larger_than_samples() {
    let samples: &[i32] = &[5, -5, 2];
    let scan = PeakScan::from_iter(samples, 100);
    assert_eq!(scan.peaks(), &[Peak { min: -5, max: 5 }]);
}

#[test]
fn scan_of_nothing_is_empty() {
    let samples: &[i32] = &[];
    let scan = PeakScan::from_iter(samples, 4);
    assert_eq!(scan.resolution(), 0);
    assert!(scan.peaks().is_empty());
}

#[test]
fn scan_chunk_size_one_keeps_every_sample() {
    let samples: &[i32] = &[3, -1, 4];
    let scan = PeakScan::from_iter(samples, 1);
    assert_eq!(
        scan.peaks(),
        &[
            Peak { min: 3, max: 3 },
            Peak { min: -1, max: -1 },
            Peak { min: 4, max: 4 }
        ]
    );
}

#[test]
fn scan_peaks_merge_to_whole_peak() {
    let samples: &[i32] = &[8, -3, 12, 0, 7, -9, 1];
    let scan = PeakScan::from_iter(samples, 2);
    let low = scan.peaks().iter().map(|p| p.min).min().unwrap();
    let high = scan.peaks().iter().map(|p| p.max).max().unwrap();
    assert_eq!(Peak::from_iter(samples), Some(Peak { min: low, max: high }));
}

#[test]
fn scan_from_chunks_keeps_peaks() {
    let peaks = vec![Peak { min: 1.5f32, max: 2.0 }, Peak { min: -1.0, max: 0.5 }];
    let scan = PeakScan::from_chunks(peaks.clone());
    assert_eq!(scan.resolution(), 2);
    assert_eq!(scan.peaks(), peaks.as_slice());
}

#[test]
fn texture_size_is_one_row_per_scan() {
    let scan = PeakScan::from_iter(&[1, 2, 3, 4, 5], 2);
    let texture = PeakTexture::from(&scan);
    assert_eq!(
        texture.texture_size(),
        Extent3d { width: 3, height: 1, depth_or_array_layers: 1 }
    );
    assert_eq!(texture.bytes_per_row(), 24);
}

#[test]
fn texture_of_empty_scan() {
    let scan: PeakScan<i32> = PeakScan::from_chunks(Vec::new());
    let texture = PeakTexture::from(&scan);
    assert_eq!(texture.texture_size().width, 0);
    assert_eq!(texture.bytes_per_row(), 0);
}

#[test]
fn scan_image_data_rows() {
    let peaks = [
        Peak { min: 10u8, max: 200u8 },
        Peak { min: 20, max: 150 },
        Peak { min: 0, max: 255 },
    ];
    assert_eq!(scan_image_data(&peaks), vec![10, 20, 0, 200, 150, 255]);
}

#[test]
fn scan_image_data_empty() {
    let peaks: [Peak<u8>; 0] = [];
    assert!(scan_image_data(&peaks).is_empty());
}

#[test]
fn uniform_block_places_value() {
    assert_eq!(uniform_block(8, 2, &[7, 8, 9]), vec![0, 0, 7, 8, 9, 0, 0, 0]);
    assert_eq!(uniform_block(3, 0, &[1, 2, 3]), vec![1, 2, 3]);
    assert_eq!(uniform_block(4, 4, &[]), vec![0, 0, 0, 0]);
}
