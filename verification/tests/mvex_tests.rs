use mp4box::boxtype::BoxType;
use mp4box::error::BoxError;
use mp4box::header::BoxHeader;
use mp4box::mehd::MehdBox;
use mp4box::mvex::MvexBox;
use mp4box::trex::TrexBox;

fn sample_trex() -> TrexBox {
    TrexBox {
        version: 0,
        flags: 0,
        track_id: 7,
        default_sample_description_index: 1,
        default_sample_duration: 2,
        default_sample_size: 3,
        default_sample_flags: 4,
    }
}

fn trex_bytes() -> Vec<u8> {
    vec![
        0x00, 0x00, 0x00, 0x20, 0x74, 0x72, 0x65, 0x78, // size 32, "trex"
        0x00, 0x00, 0x00, 0x00, // version, flags
        0x00, 0x00, 0x00, 0x07, // track_id
        0x00, 0x00, 0x00, 0x01, // default_sample_description_index
        0x00, 0x00, 0x00, 0x02, // default_sample_duration
        0x00, 0x00, 0x00, 0x03, // default_sample_size
        0x00, 0x00, 0x00, 0x04, // default_sample_flags
    ]
}

fn mehd_bytes(duration: u32) -> Vec<u8> {
    let d = duration.to_be_bytes();
    vec![
        0x00, 0x00, 0x00, 0x10, 0x6d, 0x65, 0x68, 0x64, // size 16, "mehd"
        0x00, 0x00, 0x00, 0x00, // version, flags
        d[0], d[1], d[2], d[3],
    ]
}

fn unknown_bytes() -> Vec<u8> {
    vec![
        0x00, 0x00, 0x00, 0x0c, 0x66, 0x72, 0x65, 0x65, // size 12, "free"
        0xaa, 0xbb, 0xcc, 0xdd,
    ]
}

fn mvex_box_bytes(children: &[Vec<u8>]) -> Vec<u8> {
    let total: usize = 8 + children.iter().map(|c| c.len()).sum::<usize>();
    let mut data = (total as u32).to_be_bytes().to_vec();
    data.extend_from_slice(b"mvex");
    for c in children {
        data.extend_from_slice(c);
    }
    data
}

#[test]
fn test_mvex_decode_with_unknown_child() {
    // an unrecognized child between recognized ones is skipped whole
    let data = mvex_box_bytes(&[mehd_bytes(1000), unknown_bytes(), trex_bytes()]);
    let b = MvexBox::read_box(&data, 8, data.len() as u64).unwrap();
    assert_eq!(
        b.mehd,
        Some(MehdBox { version: 0, flags: 0, fragment_duration: 1000 })
    );
    assert_eq!(b.trex, vec![sample_trex()]);
}

#[test]
fn test_mvex_missing_required_child() {
    // no track-extends child at all: only the optional child and an
    // unrecognized one
    let data = mvex_box_bytes(&[mehd_bytes(1000), unknown_bytes()]);
    let r = MvexBox::read_box(&data, 8, data.len() as u64);
    assert_eq!(r, Err(BoxError::MissingRequiredChild));
}

#[test]
fn test_mvex_budget_exceeded() {
    // the child claims 32 bytes, the parent has 16 left
    let mut child = trex_bytes();
    child.truncate(16);
    let data = mvex_box_bytes(&[child]);
    let r = MvexBox::read_box(&data, 8, data.len() as u64);
    assert_eq!(r, Err(BoxError::BudgetExceeded));
}

#[test]
fn test_mvex_undersized_child_is_framing_error() {
    // a child whose declared size cannot even hold its own header
    let data = mvex_box_bytes(&[vec![
        0x00, 0x00, 0x00, 0x04, 0x66, 0x72, 0x65, 0x65,
    ]]);
    let r = MvexBox::read_box(&data, 8, data.len() as u64);
    assert_eq!(r, Err(BoxError::Framing));
}

#[test]
fn test_mvex_last_mehd_wins() {
    let data = mvex_box_bytes(&[mehd_bytes(1000), mehd_bytes(2000), trex_bytes()]);
    let b = MvexBox::read_box(&data, 8, data.len() as u64).unwrap();
    assert_eq!(b.mehd.unwrap().fragment_duration, 2000);
}

#[test]
fn test_mvex_size_additivity() {
    let mehd = MehdBox { version: 1, flags: 0, fragment_duration: u64::MAX };
    let b = MvexBox {
        mehd: Some(mehd),
        trex: vec![sample_trex(), sample_trex(), sample_trex()],
    };
    let children_sum: u64 =
        mehd.get_size() + b.trex.iter().map(|t| t.get_size()).sum::<u64>();
    assert_eq!(b.get_size(), 8 + children_sum);
    assert_eq!(b.get_size(), 8 + 20 + 3 * 32);

    let no_mehd = MvexBox { mehd: None, trex: vec![sample_trex()] };
    assert_eq!(no_mehd.get_size(), 8 + 32);
    assert_eq!(no_mehd.get_type(), BoxType::MvexBox);
}

#[test]
fn test_mvex_round_trip() {
    let b = MvexBox {
        mehd: Some(MehdBox { version: 0, flags: 0, fragment_duration: 42 }),
        trex: vec![
            sample_trex(),
            TrexBox {
                version: 0,
                flags: 0xff_ffff,
                track_id: 9,
                default_sample_description_index: 8,
                default_sample_duration: 7,
                default_sample_size: 6,
                default_sample_flags: 5,
            },
        ],
    };
    let mut out: Vec<u8> = vec![];
    let size = b.write_box(&mut out).unwrap();
    assert_eq!(size, b.get_size());
    assert_eq!(out.len() as u64, size);
    let back = MvexBox::read_box(&out, 8, size).unwrap();
    assert_eq!(back, b);
}

#[test]
fn test_mvex_encode_flags_overflow() {
    let mut bad_trex = sample_trex();
    bad_trex.flags = 0x0100_0000;
    let b = MvexBox { mehd: None, trex: vec![bad_trex] };
    let mut out: Vec<u8> = vec![];
    assert_eq!(b.write_box(&mut out), Err(BoxError::FieldOverflow));
    assert!(out.is_empty());
}

#[test]
fn test_mehd_versioned_round_trip() {
    let m = MehdBox { version: 1, flags: 5, fragment_duration: 0x1_0000_0001 };
    let mut out: Vec<u8> = vec![];
    let size = m.write_box(&mut out).unwrap();
    assert_eq!(size, 20);
    assert_eq!(out.len(), 20);
    let back = MehdBox::read_box(&out, 8, size).unwrap();
    assert_eq!(back, m);

    // version 0 narrows to the low 32 bits on write, by design
    let narrow = MehdBox { version: 0, flags: 0, fragment_duration: 0x1_0000_0001 };
    let mut out0: Vec<u8> = vec![];
    assert_eq!(narrow.write_box(&mut out0).unwrap(), 16);
    let back0 = MehdBox::read_box(&out0, 8, 16).unwrap();
    assert_eq!(back0.fragment_duration, 1);
}

#[test]
fn test_header_read_write() {
    let data = trex_bytes();
    let h = BoxHeader::read(&data, 0).unwrap();
    assert_eq!(h.name, BoxType::TrexBox);
    assert_eq!(h.size, 32);

    let h2 = BoxHeader::new(BoxType::UnknownBox(0x6672_6565), 12);
    let mut out: Vec<u8> = vec![];
    h2.write(&mut out).unwrap();
    assert_eq!(out, vec![0x00, 0x00, 0x00, 0x0c, 0x66, 0x72, 0x65, 0x65]);

    // fewer than eight bytes left
    assert_eq!(BoxHeader::read(&data, 28), Err(BoxError::Framing));
    // a size too large for the 4-byte field
    let big = BoxHeader::new(BoxType::MvexBox, u64::MAX);
    let mut out2: Vec<u8> = vec![];
    assert_eq!(big.write(&mut out2), Err(BoxError::FieldOverflow));
    assert!(out2.is_empty());
}

#[test]
fn test_trex_decode_fields() {
    let data = trex_bytes();
    let t = TrexBox::read_box(&data, 8, 32).unwrap();
    assert_eq!(t, sample_trex());
    assert_eq!(t.get_size(), 32);
    assert_eq!(t.get_type(), BoxType::TrexBox);
}
