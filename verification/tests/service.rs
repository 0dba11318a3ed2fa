use image_server::handlers::{
    collect_file_data, handle_clear, handle_delete, handle_get, handle_stats, handle_upload,
    port_from, summary_response, AppError, FetchResponse, Part, Summary,
};
use image_server::store::{unix_epoc, Database, StoreError};
use image_server::validate::validate;

/// An ASCII PNM image (2x2, black and white): sniffed and decoded by content.
fn pnm_2x2() -> Vec<u8> {
    b"P1 2 2\n0 1\n1 0\n".to_vec()
}

/// A second ASCII PNM image (1x2) with a different byte length.
fn pnm_1x2() -> Vec<u8> {
    b"P1 1 2\n0\n1\n".to_vec()
}

/// A minimal 1x1 24-bit BMP, built field by field.
fn bmp_1x1() -> Vec<u8> {
    let mut v = Vec::new();
    v.extend_from_slice(b"BM");
    v.extend_from_slice(&58u32.to_le_bytes()); // file size
    v.extend_from_slice(&0u32.to_le_bytes()); // reserved
    v.extend_from_slice(&54u32.to_le_bytes()); // pixel data offset
    v.extend_from_slice(&40u32.to_le_bytes()); // DIB header size
    v.extend_from_slice(&1i32.to_le_bytes()); // width
    v.extend_from_slice(&1i32.to_le_bytes()); // height
    v.extend_from_slice(&1u16.to_le_bytes()); // planes
    v.extend_from_slice(&24u16.to_le_bytes()); // bits per pixel
    v.extend_from_slice(&0u32.to_le_bytes()); // compression
    v.extend_from_slice(&4u32.to_le_bytes()); // image size
    v.extend_from_slice(&0i32.to_le_bytes()); // x pixels per meter
    v.extend_from_slice(&0i32.to_le_bytes()); // y pixels per meter
    v.extend_from_slice(&0u32.to_le_bytes()); // colors used
    v.extend_from_slice(&0u32.to_le_bytes()); // important colors
    v.extend_from_slice(&[0u8, 0, 255, 0]); // one red pixel, padded to 4 bytes
    v
}

fn file_part(data: &[u8]) -> Part {
    Part { name: Some(b"file".to_vec()), chunks: vec![data.to_vec()] }
}

#[test]
fn validate_accepts_images() {
    assert!(validate(&pnm_2x2()).is_ok());
    assert!(validate(&bmp_1x1()).is_ok());
}

#[test]
fn validate_rejects_non_images() {
    assert_eq!(validate(b"hello, not an image"), Err(AppError::InvalidImageFormat));
    assert_eq!(validate(b""), Err(AppError::InvalidImageFormat));
}

#[test]
fn validate_rejects_truncated_image() {
    let bmp = bmp_1x1();
    assert_eq!(validate(&bmp[..20]), Err(AppError::InvalidImageFormat));
}

#[test]
fn upload_then_fetch_round_trip() {
    let mut store = Database::new();
    let bytes = pnm_2x2();
    let parts = vec![file_part(&bytes)];
    let r = handle_upload(&mut store, 7, &parts, 1234).expect("valid upload");
    assert_eq!(r.id, 7);
    assert_eq!(r.size, bytes.len());
    match handle_get(&store, 7) {
        FetchResponse::Found { data, date } => {
            assert_eq!(data, bytes);
            assert_eq!(date, 1234);
        },
        FetchResponse::Missing => panic!("uploaded record must be retrievable"),
    }
}

#[test]
fn upload_rejects_text_and_leaves_no_record() {
    let mut store = Database::new();
    let parts = vec![file_part(b"just some text")];
    let r = handle_upload(&mut store, 9, &parts, 1);
    assert_eq!(r, Err(AppError::InvalidImageFormat));
    assert_eq!(r.unwrap_err().status_code(), 400);
    assert!(matches!(handle_get(&store, 9), FetchResponse::Missing));
    let s = handle_stats(&store);
    assert_eq!(s, Summary { total_items: 0, total_size_bytes: 0 });
}

#[test]
fn duplicate_upload_keeps_original() {
    let mut store = Database::new();
    let first = pnm_2x2();
    let second = bmp_1x1();
    handle_upload(&mut store, 5, &vec![file_part(&first)], 10).expect("first upload");
    let r = handle_upload(&mut store, 5, &vec![file_part(&second)], 20);
    assert_eq!(r, Err(AppError::Unknown));
    assert_eq!(r.unwrap_err().status_code(), 500);
    match handle_get(&store, 5) {
        FetchResponse::Found { data, date } => {
            assert_eq!(data, first);
            assert_eq!(date, 10);
        },
        FetchResponse::Missing => panic!("original record must survive a duplicate upload"),
    }
    assert_eq!(handle_stats(&store).total_items, 1);
}

#[test]
fn delete_signals_presence() {
    let mut store = Database::new();
    assert_eq!(handle_delete(&mut store, 3), 404);
    handle_upload(&mut store, 3, &vec![file_part(&pnm_2x2())], 0).expect("upload");
    assert_eq!(handle_delete(&mut store, 3), 200);
    assert!(matches!(handle_get(&store, 3), FetchResponse::Missing));
    assert_eq!(handle_delete(&mut store, 3), 404);
}

#[test]
fn stats_then_clear_agree_and_reset() {
    let mut store = Database::new();
    let a = pnm_2x2();
    let b = pnm_1x2();
    let c = bmp_1x1();
    let total = (a.len() + b.len() + c.len()) as u128;
    handle_upload(&mut store, 1, &vec![file_part(&a)], 0).expect("upload a");
    handle_upload(&mut store, 2, &vec![file_part(&b)], 0).expect("upload b");
    handle_upload(&mut store, 3, &vec![file_part(&c)], 0).expect("upload c");
    let s = handle_stats(&store);
    assert_eq!(s, Summary { total_items: 3, total_size_bytes: total });
    let cleared = handle_clear(&mut store);
    assert_eq!(cleared, s);
    assert_eq!(handle_stats(&store), Summary { total_items: 0, total_size_bytes: 0 });
    assert_eq!(handle_clear(&mut store), Summary { total_items: 0, total_size_bytes: 0 });
}

#[test]
fn uploads_under_distinct_ids_are_independent() {
    let mut store = Database::new();
    let a = pnm_2x2();
    let b = pnm_1x2();
    let c = bmp_1x1();
    handle_upload(&mut store, 11, &vec![file_part(&a)], 1).expect("upload a");
    handle_upload(&mut store, 22, &vec![file_part(&b)], 2).expect("upload b");
    handle_upload(&mut store, 33, &vec![file_part(&c)], 3).expect("upload c");
    for (id, bytes, stamp) in [(11u128, &a, 1u32), (22, &b, 2), (33, &c, 3)] {
        match handle_get(&store, id) {
            FetchResponse::Found { data, date } => {
                assert_eq!(&data, bytes);
                assert_eq!(date, stamp);
            },
            FetchResponse::Missing => panic!("each distinct id must stay retrievable"),
        }
    }
}

#[test]
fn multipart_unnamed_part_is_rejected() {
    let mut store = Database::new();
    let parts = vec![
        file_part(&pnm_2x2()),
        Part { name: None, chunks: vec![b"x".to_vec()] },
    ];
    let r = handle_upload(&mut store, 4, &parts, 0);
    assert_eq!(r, Err(AppError::RequestError));
    assert_eq!(r.unwrap_err().status_code(), 400);
    assert!(matches!(handle_get(&store, 4), FetchResponse::Missing));
}

#[test]
fn multipart_other_parts_are_ignored_and_chunks_concatenated() {
    let bytes = pnm_2x2();
    let (head, tail) = bytes.split_at(6);
    let parts = vec![
        Part { name: Some(b"layout".to_vec()), chunks: vec![b"grid".to_vec()] },
        Part { name: Some(b"file".to_vec()), chunks: vec![head.to_vec(), tail.to_vec()] },
    ];
    let collected = collect_file_data(&parts).expect("well-formed body");
    assert_eq!(collected, bytes);
    let mut store = Database::new();
    let r = handle_upload(&mut store, 8, &parts, 0).expect("chunked upload");
    assert_eq!(r.size, bytes.len());
}

#[test]
fn multipart_no_file_part_yields_invalid_format() {
    let mut store = Database::new();
    let parts = vec![Part { name: Some(b"layout".to_vec()), chunks: vec![b"grid".to_vec()] }];
    let r = handle_upload(&mut store, 2, &parts, 0);
    assert_eq!(r, Err(AppError::InvalidImageFormat));
}

#[test]
fn summary_response_collapses_faults_to_not_found() {
    let ok = Summary { total_items: 2, total_size_bytes: 30 };
    assert_eq!(summary_response(Ok(ok)), (200, Some(ok)));
    assert_eq!(summary_response(Err(StoreError::Fault)), (404, None));
}

#[test]
fn error_status_codes() {
    assert_eq!(AppError::InvalidImageFormat.status_code(), 400);
    assert_eq!(AppError::RequestError.status_code(), 400);
    assert_eq!(AppError::Unknown.status_code(), 500);
}

#[test]
fn error_messages() {
    assert_eq!(AppError::InvalidImageFormat.message(), "Invalid Image Format");
    assert_eq!(AppError::RequestError.message(), "RequestError");
    assert_eq!(AppError::Unknown.message(), "Internal Server Error");
}

#[test]
fn port_selection() {
    assert_eq!(port_from(None), 8000);
    assert_eq!(port_from(Some(&b"8080".to_vec())), 8080);
    assert_eq!(port_from(Some(&b"+123".to_vec())), 123);
    assert_eq!(port_from(Some(&b"0".to_vec())), 0);
    assert_eq!(port_from(Some(&b"65535".to_vec())), 65535);
    assert_eq!(port_from(Some(&b"65536".to_vec())), 8000);
    assert_eq!(port_from(Some(&b"999999999999".to_vec())), 8000);
    assert_eq!(port_from(Some(&b"".to_vec())), 8000);
    assert_eq!(port_from(Some(&b"+".to_vec())), 8000);
    assert_eq!(port_from(Some(&b"80a0".to_vec())), 8000);
    assert_eq!(port_from(Some(&b"-1".to_vec())), 8000);
}

#[test]
fn clock_reads_after_epoch() {
    let now = unix_epoc().expect("system clock after the epoch");
    assert!(now > 0);
}

#[test]
fn store_add_reports_duplicates() {
    let mut store = Database::new();
    assert_eq!(store.add(1, vec![1, 2, 3], 9), Ok(()));
    assert_eq!(store.add(1, vec![4, 5], 10), Err(StoreError::DuplicateId));
    let img = store.get(1).expect("present");
    assert_eq!(img.data, vec![1, 2, 3]);
    assert_eq!(img.date, 9);
    assert_eq!(store.get(2).map(|i| i.id), None);
}

#[test]
fn store_delete_and_clear() {
    let mut store = Database::new();
    store.add(1, vec![0; 10], 0).expect("add");
    store.add(2, vec![0; 20], 0).expect("add");
    assert!(store.delete(1));
    assert!(!store.delete(1));
    assert_eq!(store.stats(), (1, 20));
    assert_eq!(store.clear(), (1, 20));
    assert_eq!(store.stats(), (0, 0));
}
