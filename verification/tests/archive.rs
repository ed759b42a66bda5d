use ksng::archive::{archive_bytes, archive_image, archive_info, file_name};
use ksng::ui_event::UiError;
use ksng::waveform::WaveformCacheInfo;

fn sample() -> (WaveformCacheInfo, Vec<Vec<Vec<u8>>>) {
    let images = vec![vec![vec![1u8, 2, 3], vec![4u8]], vec![vec![9u8, 9]]];
    let info = WaveformCacheInfo {
        levels: 2,
        imgs_per_level: vec![2, 1],
        pixel_to_s: vec![0.5f32.to_bits(), 1.0f32.to_bits()],
        duration: 12.5f32.to_bits(),
    };
    (info, images)
}

#[test]
fn archive_round_trip_info() {
    let (info, images) = sample();
    let bytes = archive_bytes(&info, &images).unwrap();
    let back = archive_info(&bytes).unwrap();
    assert_eq!(back.levels, 2);
    assert_eq!(back.imgs_per_level, vec![2, 1]);
    assert_eq!(back.pixel_to_s, info.pixel_to_s);
    assert_eq!(f32::from_bits(back.duration), 12.5);
}

#[test]
fn archive_round_trip_images() {
    let (info, images) = sample();
    let bytes = archive_bytes(&info, &images).unwrap();
    assert_eq!(archive_image(&bytes, 0, 0).unwrap(), vec![1u8, 2, 3]);
    assert_eq!(archive_image(&bytes, 0, 1).unwrap(), vec![4u8]);
    assert_eq!(archive_image(&bytes, 1, 0).unwrap(), vec![9u8, 9]);
}

#[test]
fn archive_missing_image_is_audio_error() {
    let (info, images) = sample();
    let bytes = archive_bytes(&info, &images).unwrap();
    assert!(matches!(archive_image(&bytes, 1, 1), Err(UiError::Audio(_))));
    assert!(matches!(archive_image(&bytes, 5, 0), Err(UiError::Audio(_))));
}

#[test]
fn archive_without_entries_has_no_info() {
    assert!(matches!(archive_info(&[]), Err(UiError::Audio(_))));
    assert!(matches!(archive_info(&[0u8; 1024]), Err(UiError::Audio(_))));
}

#[test]
fn archive_short_header_is_io_error() {
    let mut builder = tar::Builder::new(Vec::new());
    let mut header = tar::Header::new_gnu();
    header.set_path(".shape").unwrap();
    header.set_size(2);
    header.set_cksum();
    builder.append(&header, &[3u8, 0][..]).unwrap();
    let bytes = builder.into_inner().unwrap();
    assert!(matches!(archive_info(&bytes), Err(UiError::Io(_))));
}

#[test]
fn archive_without_levels_round_trip() {
    let info = WaveformCacheInfo { levels: 0, imgs_per_level: vec![], pixel_to_s: vec![], duration: 0 };
    let bytes = archive_bytes(&info, &vec![]).unwrap();
    let back = archive_info(&bytes).unwrap();
    assert_eq!(back.levels, 0);
    assert!(back.imgs_per_level.is_empty());
}

#[test]
fn file_name_takes_last_component() {
    assert_eq!(file_name(&b"a/b/mip-l0-i0.png".to_vec()), Some(b"mip-l0-i0.png".to_vec()));
    assert_eq!(file_name(&b"x.png".to_vec()), Some(b"x.png".to_vec()));
    assert_eq!(file_name(&b"dir/sub/".to_vec()), Some(b"sub".to_vec()));
    assert_eq!(file_name(&b"dir/sub/.".to_vec()), Some(b"sub".to_vec()));
    assert_eq!(file_name(&b"dir//x".to_vec()), Some(b"x".to_vec()));
    assert_eq!(file_name(&b"dir/..".to_vec()), None);
    assert_eq!(file_name(&b"/".to_vec()), None);
    assert_eq!(file_name(&b".".to_vec()), None);
    assert_eq!(file_name(&b"".to_vec()), None);
}

#[test]
fn cache_loads_info_once() {
    let (info, images) = sample();
    let bytes = archive_bytes(&info, &images).unwrap();
    let mut cache = ksng::waveform::WaveformCache::new("w".to_string(), "/x".to_string());
    assert!(cache.load_info(&[]).is_err());
    assert!(cache.info.is_none());
    assert!(cache.load_info(&bytes).is_ok());
    assert_eq!(cache.info.as_ref().unwrap().imgs_per_level, vec![2, 1]);
    assert!(cache.load_info(&[]).is_ok());
}

#[test]
fn cache_loads_entries_from_archive() {
    let (info, images) = sample();
    let bytes = archive_bytes(&info, &images).unwrap();
    let mut cache = ksng::waveform::WaveformCache::new("w".to_string(), "/x".to_string());
    let (uri, data) = cache.load_entry(&bytes, 0, 1).unwrap();
    assert_eq!(uri, "bytes://w_mip_l0_i1.png");
    assert_eq!(data, vec![4u8]);
    assert_eq!(cache.entries.len(), 1);
    let (uri2, data2) = cache.load_entry(&[], 0, 1).unwrap();
    assert_eq!((uri2, data2), (uri, data));
    assert_eq!(cache.entries.len(), 1);
    assert!(cache.load_entry(&bytes, 3, 0).is_err());
    assert_eq!(cache.entries.len(), 1);
}
