use rusb2snes::frame::{chunks, split_regions};
use rusb2snes::{Error, Frame, Reassembler, Status};

fn pattern(len: usize) -> Vec<u8> {
    (0..len).map(|i| (i * 7 + 3) as u8).collect()
}

#[test]
fn payload_of_2500_bytes_takes_three_chunks() {
    let data = pattern(2500);
    let parts = chunks(&data);
    let sizes: Vec<usize> = parts.iter().map(|p| p.len()).collect();
    assert_eq!(sizes, vec![1024, 1024, 452]);
    assert_eq!(parts.concat(), data);
}

#[test]
fn chunks_at_the_edges() {
    assert_eq!(chunks(&vec![]), Vec::<Vec<u8>>::new());
    assert_eq!(chunks(&vec![9]), vec![vec![9]]);
    assert_eq!(chunks(&pattern(1023)), vec![pattern(1023)]);
    assert_eq!(chunks(&pattern(1024)), vec![pattern(1024)]);
    let parts = chunks(&pattern(1025));
    assert_eq!(parts.len(), 2);
    assert_eq!(parts[0], pattern(1024));
    assert_eq!(parts[1], vec![pattern(1025)[1024]]);
    let parts = chunks(&pattern(2048));
    assert_eq!(parts.iter().map(|p| p.len()).collect::<Vec<_>>(), vec![1024, 1024]);
}

#[test]
fn chunks_join_to_the_payload() {
    for len in [0, 1, 10, 1000, 1024, 1025, 2047, 2048, 2049, 2500, 10000] {
        let data = pattern(len);
        let parts = chunks(&data);
        assert_eq!(parts.len(), (len + 1023) / 1024);
        assert_eq!(parts.concat(), data);
        for (i, part) in parts.iter().enumerate() {
            assert!(!part.is_empty());
            assert!(part.len() <= 1024);
            if i + 1 < parts.len() {
                assert_eq!(part.len(), 1024);
            }
        }
    }
}

#[test]
fn buffer_is_cut_at_the_regions() {
    let data = vec![0x55, 0x00, 0x55];
    assert_eq!(split_regions(&data, &vec![1, 2]), Ok(vec![vec![0x55], vec![0x00, 0x55]]));
    assert_eq!(split_regions(&data, &vec![2, 1]), Ok(vec![vec![0x55, 0x00], vec![0x55]]));
    assert_eq!(split_regions(&data, &vec![3]), Ok(vec![vec![0x55, 0x00, 0x55]]));
    assert_eq!(split_regions(&data, &vec![]), Ok(vec![]));
    assert_eq!(
        split_regions(&data, &vec![0, 1, 0, 2, 0]),
        Ok(vec![vec![], vec![0x55], vec![], vec![0x00, 0x55], vec![]])
    );
}

#[test]
fn regions_use_the_buffer_as_far_as_they_reach() {
    let data = pattern(10);
    assert_eq!(split_regions(&data, &vec![4, 3]), Ok(vec![data[0..4].to_vec(), data[4..7].to_vec()]));
}

#[test]
fn regions_beyond_the_buffer_are_refused() {
    let data = pattern(3);
    assert_eq!(split_regions(&data, &vec![4]), Err(Error::OutOfBounds));
    assert_eq!(split_regions(&data, &vec![1, 2, 1]), Err(Error::OutOfBounds));
    assert_eq!(split_regions(&data, &vec![usize::MAX, usize::MAX]), Err(Error::OutOfBounds));
    assert_eq!(split_regions(&vec![], &vec![0, 0, 1]), Err(Error::OutOfBounds));
}

#[test]
fn regions_join_to_the_buffer() {
    let data = pattern(100);
    let sizes = vec![10, 0, 30, 1, 59];
    let parts = split_regions(&data, &sizes).unwrap();
    assert_eq!(parts.iter().map(|p| p.len()).collect::<Vec<_>>(), sizes);
    assert_eq!(parts.concat(), data);
}

#[test]
fn payload_in_one_frame() {
    let mut payload = Reassembler::new(1);
    assert_eq!(payload.accept(&Frame::Binary(vec![0x55])), Status::Complete);
    assert_eq!(payload.into_bytes(), vec![0x55]);
}

#[test]
fn payload_in_several_frames() {
    let data = pattern(2500);
    for cut in [0, 1, 1024, 1250, 2499, 2500] {
        let mut payload = Reassembler::new(2500);
        let first = payload.accept(&Frame::Binary(data[..cut].to_vec()));
        if cut == 2500 {
            assert_eq!(first, Status::Complete);
        } else {
            assert_eq!(first, Status::Pending);
            assert_eq!(payload.accept(&Frame::Binary(data[cut..].to_vec())), Status::Complete);
        }
        assert_eq!(payload.into_bytes(), data);
    }
}

#[test]
fn payload_byte_by_byte() {
    let data = pattern(50);
    let mut payload = Reassembler::new(50);
    for (i, byte) in data.iter().enumerate() {
        let status = payload.accept(&Frame::Binary(vec![*byte]));
        assert_eq!(status, if i == 49 { Status::Complete } else { Status::Pending });
    }
    assert_eq!(payload.into_bytes(), data);
}

#[test]
fn other_frames_are_passed_over() {
    let mut payload = Reassembler::new(2);
    assert_eq!(payload.accept(&Frame::Text("noise".to_string())), Status::Pending);
    assert_eq!(payload.accept(&Frame::Binary(vec![1])), Status::Pending);
    assert_eq!(payload.accept(&Frame::Other), Status::Pending);
    assert_eq!(payload.accept(&Frame::Binary(vec![])), Status::Pending);
    assert_eq!(payload.accept(&Frame::Binary(vec![2])), Status::Complete);
    assert_eq!(payload.into_bytes(), vec![1, 2]);
}

#[test]
fn too_many_bytes_are_an_overrun() {
    let mut payload = Reassembler::new(2);
    assert_eq!(payload.accept(&Frame::Binary(vec![1, 2, 3])), Status::Overrun);
    let mut payload = Reassembler::new(2);
    assert_eq!(payload.accept(&Frame::Binary(vec![1])), Status::Pending);
    assert_eq!(payload.accept(&Frame::Binary(vec![2, 3])), Status::Overrun);
}

#[test]
fn empty_payload_is_complete_before_any_frame() {
    let payload = Reassembler::new(0);
    assert_eq!(payload.status(), Status::Complete);
    assert_eq!(payload.into_bytes(), Vec::<u8>::new());
}

#[test]
fn status_follows_the_bytes_in_hand() {
    let mut payload = Reassembler::new(3);
    assert_eq!(payload.status(), Status::Pending);
    payload.accept(&Frame::Binary(vec![1, 2]));
    assert_eq!(payload.status(), Status::Pending);
    payload.accept(&Frame::Text("x".to_string()));
    assert_eq!(payload.status(), Status::Pending);
    payload.accept(&Frame::Binary(vec![3]));
    assert_eq!(payload.status(), Status::Complete);
    payload.accept(&Frame::Binary(vec![4]));
    assert_eq!(payload.status(), Status::Overrun);
}
