use image_blp::encode::sort_mipmap_pairs;
use image_blp::header::BlpHeader;
use image_blp::jpeg::{fetch_common_header, MAX_JPEG_HEADER};
use image_blp::path::make_mipmap_path;
use image_blp::primitives::push_le_u32;
use image_blp::version::BlpVersion;

#[test]
fn test_fetch_common_header() {
    let mut images0: Vec<Vec<u8>> = vec![];
    assert_eq!(fetch_common_header(&mut images0), vec![]);

    let mut images00: Vec<Vec<u8>> = vec![vec![]];
    assert_eq!(fetch_common_header(&mut images00), vec![]);

    let mut images1: Vec<Vec<u8>> = vec![(1..10).collect()];
    let result1: Vec<u8> = (1..10).collect();
    let header1 = fetch_common_header(&mut images1);
    assert_eq!(header1, result1);
    assert!(images1[0].is_empty());

    let mut images2: Vec<Vec<u8>> = vec![vec![42; MAX_JPEG_HEADER + 1]];
    let result2: Vec<u8> = vec![42; MAX_JPEG_HEADER];
    let header2 = fetch_common_header(&mut images2);
    assert_eq!(header2, result2);
    assert_eq!(images2[0], vec![42]);

    let mut images3: Vec<Vec<u8>> =
        vec![vec![42; MAX_JPEG_HEADER + 1], vec![42; MAX_JPEG_HEADER + 1]];
    let result3: Vec<u8> = vec![42; MAX_JPEG_HEADER];
    let header3 = fetch_common_header(&mut images3);
    assert_eq!(header3, result3);
    assert_eq!(images3[0], vec![42]);

    let mut images4: Vec<Vec<u8>> = vec![vec![1, 2, 3, 4, 5, 6], vec![1, 2, 3, 0, 0]];
    let result4: Vec<u8> = vec![1, 2, 3];
    let header4 = fetch_common_header(&mut images4);
    assert_eq!(header4, result4);
    assert_eq!(images4[0], vec![4, 5, 6]);
    assert_eq!(images4[1], vec![0, 0]);

    let mut images5: Vec<Vec<u8>> = vec![vec![1, 2, 3, 4, 5, 6], vec![1, 2]];
    let result5: Vec<u8> = vec![1, 2];
    let header5 = fetch_common_header(&mut images5);
    assert_eq!(header5, result5);
    assert_eq!(images5[0], vec![3, 4, 5, 6]);
    assert_eq!(images5[1], vec![]);

    let mut images6: Vec<Vec<u8>> = vec![vec![1, 2], vec![1, 2, 3, 4, 5, 6]];
    let result6: Vec<u8> = vec![1, 2];
    let header6 = fetch_common_header(&mut images6);
    assert_eq!(header6, result6);
    assert_eq!(images6[0], vec![]);
    assert_eq!(images6[1], vec![3, 4, 5, 6]);
}

#[test]
fn test_sorting() {
    let offsets: Vec<u32> = vec![356, 123, 567, 421];
    let sizes: Vec<u32> = vec![1, 2, 3, 4];
    let pairs: Vec<(u32, u32)> = offsets.into_iter().zip(sizes).collect();
    let sorted = sort_mipmap_pairs(pairs);
    assert_eq!(sorted, vec![(123, 2), (356, 1), (421, 4), (567, 3)]);
}

#[test]
fn test_push_le_u32() {
    let mut output = vec![];
    push_le_u32(0x1A2B3C4D, &mut output);
    assert_eq!(output, [0x4D, 0x3c, 0x2B, 0x1A]);
}

#[test]
fn test_blp0_path() {
    assert_eq!(
        make_mipmap_path(b"test.blp", 0).expect("path"),
        b"test.b00".to_vec()
    );
    assert_eq!(
        make_mipmap_path(b"/root/dir/test.blp", 2).expect("path"),
        b"/root/dir/test.b02".to_vec()
    );
    assert_eq!(
        make_mipmap_path(b"/root/dir/test.blp", 14).expect("path"),
        b"/root/dir/test.b14".to_vec()
    );
}

#[test]
fn test_mipmap_count() {
    let header = BlpHeader {
        width: 512,
        height: 256,
        version: BlpVersion::Blp0,
        ..Default::default()
    };
    assert_eq!(header.mipmaps_count(), 9);

    let header = BlpHeader {
        width: 512,
        height: 256,
        version: BlpVersion::Blp1,
        ..Default::default()
    };
    assert_eq!(header.mipmaps_count(), 9);

    let header = BlpHeader {
        width: 1,
        height: 4,
        ..Default::default()
    };
    assert_eq!(header.mipmaps_count(), 2);

    let header = BlpHeader {
        width: 4,
        height: 7,
        ..Default::default()
    };
    assert_eq!(header.mipmaps_count(), 2);

    let header = BlpHeader {
        width: 768,
        height: 128,
        ..Default::default()
    };
    assert_eq!(header.mipmaps_count(), 9);
}

#[test]
fn known_magics() {
    let magic1 = [0x42, 0x4c, 0x50, 0x31];
    let version1 = BlpVersion::from_magic(magic1);
    assert_eq!(version1, Some(BlpVersion::Blp1));
    assert_eq!(version1.unwrap().to_magic(), magic1);

    let magic2 = [0x42, 0x4c, 0x50, 0x32];
    let version2 = BlpVersion::from_magic(magic2);
    assert_eq!(version2, Some(BlpVersion::Blp2));
    assert_eq!(version2.unwrap().to_magic(), magic2);

    let magic3 = [0x42, 0x4c, 0x50, 0x30];
    let version3 = BlpVersion::from_magic(magic3);
    assert_eq!(version3, Some(BlpVersion::Blp0));
    assert_eq!(version3.unwrap().to_magic(), magic3);
}
