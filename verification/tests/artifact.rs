use smmdb_core::Data;
use smmdb_core::DownloadCourse2Error;
use smmdb_core::GetThumbnail2;
use smmdb_core::NewCourse2;
use smmdb_core::PermGen;
use smmdb_core::Size2;
use std::io::Read;

fn payload(seed: u8, len: usize) -> Vec<u8> {
    let mut v = Vec::with_capacity(len);
    let mut x = seed as u32;
    for _ in 0..len {
        x = x.wrapping_mul(1103515245).wrapping_add(12345);
        v.push((x >> 16) as u8);
    }
    v
}

fn small_jpeg() -> Vec<u8> {
    let img = image::RgbImage::from_fn(16, 16, |x, y| image::Rgb([x as u8 * 10, y as u8 * 10, 7]));
    let mut out = Vec::new();
    let enc = image::codecs::jpeg::JpegEncoder::new_with_quality(&mut out, 90);
    image::DynamicImage::ImageRgb8(img).write_with_encoder(enc).unwrap();
    out
}

fn data_with_one_course() -> (Data, u64, Vec<u8>, Vec<u8>) {
    let mut data = Data::new(PermGen::new(128).unwrap(), 8);
    let bytes = payload(1, 2000);
    let thumb = small_jpeg();
    let c = NewCourse2 { data: bytes.clone(), thumb: Some(thumb.clone()), title: "a".to_string() };
    let id = data.ingest_course(c, 1, None, 0).unwrap();
    (data, id, bytes, thumb)
}

fn brotli_decompress(data: &[u8]) -> Vec<u8> {
    let mut out = Vec::new();
    brotli2::read::BrotliDecoder::new(data).read_to_end(&mut out).unwrap();
    out
}

#[test]
fn canonical_download_returns_stored_bytes() {
    let (data, id, bytes, thumb) = data_with_one_course();
    let (d, t) = data.get_course2(id).unwrap();
    assert_eq!(d, bytes);
    assert_eq!(t, thumb);
    match data.get_course2(id + 1) {
        Err(DownloadCourse2Error::CourseNotFound(missing)) => assert_eq!(missing, id + 1),
        _ => panic!("an unknown id must be reported as not found"),
    }
}

#[test]
fn compressed_download_round_trips_and_is_cached() {
    let (mut data, id, bytes, _) = data_with_one_course();
    assert!(data.courses[0].data_br.is_none());
    let (d1, _) = data.get_course2_br(id).unwrap();
    // The transform really compressed: the served bytes differ from the
    // payload but decompress back to it.
    assert_ne!(d1, bytes);
    assert_eq!(brotli_decompress(&d1), bytes);
    // First request persisted the representation onto the record.
    assert!(data.courses[0].data_br.is_some());
    // A second request observes the cached field and serves byte-identical
    // output.
    let (d2, _) = data.get_course2_br(id).unwrap();
    assert_eq!(d1, d2);
}

#[test]
fn transcoded_download_is_missing_until_supplied() {
    let (mut data, id, _, thumb) = data_with_one_course();
    match data.get_course2_proto(id) {
        Err(DownloadCourse2Error::MissingArtifact(missing)) => assert_eq!(missing, id),
        _ => panic!("the representation has not been derived yet"),
    }
    let transcoded = payload(55, 700);
    let stored = data.add_course2_data_protobuf_br(id, transcoded.clone()).unwrap();
    assert_eq!(brotli_decompress(&stored), transcoded);
    let (d, t) = data.get_course2_proto(id).unwrap();
    assert_eq!(d, stored);
    assert_eq!(t, thumb);
}

#[test]
fn thumbnail_original_is_served_as_stored() {
    let (mut data, id, _, thumb) = data_with_one_course();
    let t = data.get_course2_thumbnail(id, GetThumbnail2 { size: Size2::Original }).unwrap();
    assert_eq!(t, thumb);
    let t2 = data.get_course2_thumbnail(id, GetThumbnail2 { size: Size2::Encrypted }).unwrap();
    assert_eq!(t2, thumb);
}

#[test]
fn resized_thumbnail_is_cached_and_byte_identical_across_requests() {
    let (mut data, id, _, _) = data_with_one_course();
    assert!(data.courses[0].thumb_s.is_none());
    let t1 = data.get_course2_thumbnail(id, GetThumbnail2 { size: Size2::S }).unwrap();
    assert!(data.courses[0].thumb_s.is_some());
    let t2 = data.get_course2_thumbnail(id, GetThumbnail2 { size: Size2::S }).unwrap();
    assert_eq!(t1, t2);
    // The derived image really has the requested dimensions.
    let img = image::load_from_memory(&t1).unwrap();
    assert_eq!((image::GenericImageView::width(&img), image::GenericImageView::height(&img)), (160, 90));
    // Other sizes are cached independently.
    let m = data.get_course2_thumbnail(id, GetThumbnail2 { size: Size2::M }).unwrap();
    assert_ne!(t1, m);
}

#[test]
fn thumbnail_sizes_have_the_documented_dimensions() {
    assert_eq!(Size2::S.get_dimensions(), (160, 90));
    assert_eq!(Size2::M.get_dimensions(), (320, 180));
    assert_eq!(Size2::L.get_dimensions(), (480, 270));
    assert_eq!(Size2::Original.get_dimensions(), (640, 360));
    assert_eq!(Size2::Encrypted.get_dimensions(), (640, 360));
}

#[test]
fn thumbnail_of_unknown_course_is_not_found() {
    let (mut data, id, _, _) = data_with_one_course();
    match data.get_course2_thumbnail(id + 7, GetThumbnail2 { size: Size2::S }) {
        Err(smmdb_core::GetCourse2ThumbnailError::CourseNotFound(missing)) => {
            assert_eq!(missing, id + 7)
        }
        _ => panic!("an unknown id must be reported as not found"),
    }
}

#[test]
fn undecodable_thumbnail_is_an_image_error() {
    let mut data = Data::new(PermGen::new(128).unwrap(), 8);
    let c = NewCourse2 {
        data: payload(1, 2000),
        thumb: Some(vec![1, 2, 3]),
        title: "junk thumb".to_string(),
    };
    let id = data.ingest_course(c, 1, None, 0).unwrap();
    match data.get_course2_thumbnail(id, GetThumbnail2 { size: Size2::S }) {
        Err(smmdb_core::GetCourse2ThumbnailError::Image) => {}
        _ => panic!("bytes that decode as no image must be reported"),
    }
    // The original-size thumbnail is still served as stored.
    let t = data.get_course2_thumbnail(id, GetThumbnail2 { size: Size2::Original }).unwrap();
    assert_eq!(t, vec![1, 2, 3]);
}
