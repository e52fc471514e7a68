use rmilter::framing::FrameAssembler;

fn frame(payload: &[u8]) -> Vec<u8> {
    let mut bytes = (payload.len() as u32).to_be_bytes().to_vec();
    bytes.extend_from_slice(payload);
    bytes
}

fn stream(payloads: &[&[u8]]) -> Vec<u8> {
    let mut bytes = Vec::new();
    for p in payloads {
        bytes.extend_from_slice(&frame(p));
    }
    bytes
}

fn feed_in_chunks(bytes: &[u8], size: usize) -> (Vec<Vec<u8>>, FrameAssembler) {
    let mut assembler = FrameAssembler::new();
    let mut out = Vec::new();
    for chunk in bytes.chunks(size) {
        out.extend(assembler.feed(chunk));
    }
    (out, assembler)
}

#[test]
fn frames_come_back_in_one_byte_reads() {
    let payloads: [&[u8]; 3] = [b"Hhost\0", b"Q", b""];
    let (out, mut assembler) = feed_in_chunks(&stream(&payloads), 1);
    assert_eq!(out, vec![b"Hhost\0".to_vec(), b"Q".to_vec(), Vec::new()]);
    assert_eq!(assembler.next_frame(), None);
}

#[test]
fn frames_come_back_from_one_large_read() {
    let payloads: [&[u8]; 2] = [b"Hone\0", b"Htwo\0"];
    let bytes = stream(&payloads);
    let (out, _) = feed_in_chunks(&bytes, bytes.len());
    assert_eq!(out, vec![b"Hone\0".to_vec(), b"Htwo\0".to_vec()]);
}

#[test]
fn frames_come_back_in_reads_of_every_size() {
    let payloads: [&[u8]; 4] = [b"A", b"Bbody text", b"N", b"Mfrom\0arg\0"];
    let bytes = stream(&payloads);
    let expected: Vec<Vec<u8>> = payloads.iter().map(|p| p.to_vec()).collect();
    for size in 1..=bytes.len() {
        let (out, _) = feed_in_chunks(&bytes, size);
        assert_eq!(out, expected, "reads of {} bytes", size);
    }
}

#[test]
fn length_prefix_split_across_reads() {
    let mut assembler = FrameAssembler::new();
    assert!(assembler.feed(&[0, 0]).is_empty());
    assert!(assembler.feed(&[0, 2, b'H']).is_empty());
    assert_eq!(assembler.feed(&[0]), vec![vec![b'H', 0]]);
}

#[test]
fn incomplete_frame_is_not_handed_out() {
    let mut assembler = FrameAssembler::new();
    assembler.push(&[0, 0, 0, 5, b'B', b'x']);
    assert_eq!(assembler.next_frame(), None);
    assembler.push(&[b'y', b'z', b'w']);
    assert_eq!(assembler.next_frame(), Some(b"Bxyzw".to_vec()));
    assert_eq!(assembler.next_frame(), None);
}

#[test]
fn empty_assembler_yields_nothing() {
    let mut assembler = FrameAssembler::new();
    assert!(assembler.feed(&[]).is_empty());
    assert_eq!(assembler.next_frame(), None);
}
