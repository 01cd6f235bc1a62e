use mp4box::bits::{pack_1_31, pack_1_3_28, unpack_1_31, unpack_1_3_28};
use mp4box::boxtype::BoxType;
use mp4box::error::BoxError;
use mp4box::sidx::{SidxBox, SidxReference};

fn sample_sidx_bytes() -> Vec<u8> {
    vec![
        0x00, 0x00, 0x00, 0x2c, // size = 44
        0x73, 0x69, 0x64, 0x78, // type = sidx
        0x00, // version = 0
        0x00, 0x00, 0x00, // flags = 0
        0x00, 0x00, 0x00, 0x01, // reference_id = 1
        0x00, 0x00, 0x03, 0xe8, // timescale = 1000
        0x00, 0x00, 0x00, 0x00, // earliest_presentation_time = 0
        0x00, 0x00, 0x00, 0x64, // first_offset = 100
        0x00, 0x00, // reserved = 0
        0x00, 0x01, // reference_count = 1
        0x80, 0x00, 0x00, 0x32, // reference_type, referenced_size = 50
        0x00, 0x00, 0x03, 0xe8, // subsegment_duration = 1000
        0x00, 0x00, 0x00, 0x00, // starts_with_sap, sap_type, sap_delta_time = 0
    ]
}

#[test]
fn test_read_sidx_box() {
    let data = sample_sidx_bytes();
    let sidx_box = SidxBox::read_box(&data, 8, data.len() as u64).unwrap();

    assert_eq!(sidx_box.version, 0);
    assert_eq!(sidx_box.reference_id, 1);
    assert_eq!(sidx_box.timescale, 1000);
    assert_eq!(sidx_box.earliest_presentation_time, 0);
    assert_eq!(sidx_box.first_offset, 100);
    assert_eq!(sidx_box.references.len(), 1);
    assert_eq!(sidx_box.references[0].referenced_size, 50);

    let mut writer: Vec<u8> = vec![];
    let size = sidx_box.write_box(&mut writer).unwrap();
    assert_eq!(size, data.len() as u64);

    assert_eq!(writer, data);
}

#[test]
fn test_sidx_sample_all_fields() {
    let data = sample_sidx_bytes();
    let b = SidxBox::read_box(&data, 8, 44).unwrap();
    assert_eq!(b.flags, 0);
    assert_eq!(b.get_type(), BoxType::SidxBox);
    assert_eq!(b.get_size(), 44);
    let r = &b.references[0];
    assert_eq!(r.reference_type, 1);
    assert_eq!(r.subsegment_duration, 1000);
    assert_eq!(r.starts_with_sap, 0);
    assert_eq!(r.sap_type, 0);
    assert_eq!(r.sap_delta_time, 0);
}

#[test]
fn test_sidx_round_trip_version_1() {
    let b = SidxBox {
        version: 1,
        flags: 0,
        reference_id: 0xdead_beef,
        timescale: 90_000,
        earliest_presentation_time: 0x0001_0002_0003_0004,
        first_offset: 0xffff_ffff_0000_0001,
        references: vec![
            SidxReference {
                reference_type: 0,
                referenced_size: 0x7fff_ffff,
                subsegment_duration: 0xffff_ffff,
                starts_with_sap: 1,
                sap_type: 7,
                sap_delta_time: 0x0fff_ffff,
            },
            SidxReference {
                reference_type: 1,
                referenced_size: 0,
                subsegment_duration: 0,
                starts_with_sap: 0,
                sap_type: 3,
                sap_delta_time: 42,
            },
        ],
    };
    let mut out: Vec<u8> = vec![];
    let size = b.write_box(&mut out).unwrap();
    assert_eq!(size, b.get_size());
    assert_eq!(out.len() as u64, size);
    let back = SidxBox::read_box(&out, 8, size).unwrap();
    assert_eq!(back, b);
}

#[test]
fn test_sidx_zero_references_decodes() {
    // A leaf box may carry an empty reference list; only the container's
    // track-extends list is required to be non-empty.
    let b = SidxBox {
        version: 0,
        flags: 0,
        reference_id: 5,
        timescale: 1000,
        earliest_presentation_time: 1,
        first_offset: 2,
        references: vec![],
    };
    let mut out: Vec<u8> = vec![];
    let size = b.write_box(&mut out).unwrap();
    assert_eq!(size, 32);
    let back = SidxBox::read_box(&out, 8, size).unwrap();
    assert_eq!(back.references.len(), 0);
    assert_eq!(back, b);
}

#[test]
fn test_sidx_trailing_padding_tolerated() {
    let mut data = sample_sidx_bytes();
    // enlarge the declared size by four bytes of trailing garbage
    data[3] = 0x30;
    data.extend_from_slice(&[0xaa, 0xbb, 0xcc, 0xdd]);
    let b = SidxBox::read_box(&data, 8, data.len() as u64).unwrap();
    assert_eq!(b.references.len(), 1);
    assert_eq!(b.references[0].referenced_size, 50);
}

#[test]
fn test_sidx_truncated_is_framing_error() {
    let data = sample_sidx_bytes();
    // declared size runs past the end of the available bytes
    let r = SidxBox::read_box(&data, 8, 60);
    assert_eq!(r, Err(BoxError::Framing));
    // too small to hold the fixed fields
    let r = SidxBox::read_box(&data, 8, 12);
    assert_eq!(r, Err(BoxError::Framing));
    // record area smaller than the declared reference count needs
    let mut short = data.clone();
    short[31] = 0x02; // reference_count = 2, but only one record fits
    let r = SidxBox::read_box(&short, 8, short.len() as u64);
    assert_eq!(r, Err(BoxError::Framing));
}

#[test]
fn test_sidx_field_overflow_on_encode() {
    let b = SidxBox {
        version: 0,
        flags: 0,
        reference_id: 1,
        timescale: 1000,
        earliest_presentation_time: 0,
        first_offset: 0,
        references: vec![SidxReference {
            reference_type: 0,
            referenced_size: 0x8000_0000, // needs 32 bits, field holds 31
            subsegment_duration: 0,
            starts_with_sap: 0,
            sap_type: 0,
            sap_delta_time: 0,
        }],
    };
    let mut out: Vec<u8> = vec![];
    assert_eq!(b.write_box(&mut out), Err(BoxError::FieldOverflow));
    assert!(out.is_empty());

    let b2 = SidxBox {
        references: vec![SidxReference {
            reference_type: 0,
            referenced_size: 0,
            subsegment_duration: 0,
            starts_with_sap: 0,
            sap_type: 8, // needs 4 bits, field holds 3
            sap_delta_time: 0,
        }],
        ..b
    };
    assert_eq!(b2.write_box(&mut out), Err(BoxError::FieldOverflow));
    assert!(out.is_empty());
}

#[test]
fn test_pack_unpack_1_31() {
    for (v1, v2) in [(0u32, 0u32), (1, 0), (1, 0x7fff_ffff), (0, 123_456), (1, 1)] {
        let w = pack_1_31(v1, v2);
        assert_eq!(unpack_1_31(w), (v1, v2));
    }
    assert_eq!(pack_1_31(1, 50), 0x8000_0032);
}

#[test]
fn test_pack_unpack_1_3_28() {
    for (v1, v2, v3) in [
        (0u32, 0u32, 0u32),
        (1, 7, 0x0fff_ffff),
        (1, 0, 1),
        (0, 5, 0x0abc_def0),
    ] {
        let w = pack_1_3_28(v1, v2, v3);
        assert_eq!(unpack_1_3_28(w), (v1, v2, v3));
    }
    assert_eq!(pack_1_3_28(1, 2, 3), 0xa000_0003);
}
