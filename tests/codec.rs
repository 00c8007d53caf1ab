use udp_upload::bytes::{u16_from_u8_array, u32_from_u8_array, u64_from_u8_array};
use udp_upload::message::{ChunkData, FileData, Message};
use udp_upload::network::{message_from_read, GenericError};

fn too_short_text(required: usize) -> String {
    if required == 2 {
        "Foram lidos menos de 2 bytes, o que é insuficiente para determinar o tipo de mensagem".to_string()
    } else {
        format!(
            "Foram lidos menos de {} bytes para uma mensagem que deve conter no mínimo {} bytes",
            required, required
        )
    }
}

fn decode(bytes: &[u8]) -> Result<Message, String> {
    Message::new(bytes, bytes.len()).map_err(|e| e.message())
}

fn assert_same(a: &Message, b: &Message) {
    match (a, b) {
        (Message::Hello, Message::Hello) => {}
        (Message::Accepted, Message::Accepted) => {}
        (Message::End, Message::End) => {}
        (Message::Connection(x), Message::Connection(y)) => assert_eq!(x, y),
        (Message::Ack(x), Message::Ack(y)) => assert_eq!(x, y),
        (Message::InfoFile(x), Message::InfoFile(y)) => {
            assert_eq!(x.filename, y.filename);
            assert_eq!(x.file_size, y.file_size);
        }
        (Message::File(x), Message::File(y)) => {
            assert_eq!(x.sequence_number, y.sequence_number);
            assert_eq!(x.payload_size, y.payload_size);
            assert_eq!(x.data, y.data);
        }
        _ => panic!("different message kinds"),
    }
}

#[test]
fn reads_big_endian_integers() {
    assert_eq!(u16_from_u8_array(&[0x01, 0x02]), 0x0102);
    assert_eq!(u16_from_u8_array(&[0xff, 0xff, 0x00]), 0xffff);
    assert_eq!(u32_from_u8_array(&[0x00, 0x00, 0x75, 0x30]), 30000);
    assert_eq!(u32_from_u8_array(&[0xde, 0xad, 0xbe, 0xef]), 0xdeadbeef);
    assert_eq!(
        u64_from_u8_array(&[0x01, 0x23, 0x45, 0x67, 0x89, 0xab, 0xcd, 0xef]),
        0x0123_4567_89ab_cdef
    );
    assert_eq!(u64_from_u8_array(&[0, 0, 0, 0, 0, 0, 0x0d, 0xac]), 3500);
}

#[test]
fn encodes_control_messages() {
    assert_eq!(Message::Hello.encode(), vec![0, 1]);
    assert_eq!(Message::Connection(30000).encode(), vec![0, 2, 0, 0, 0x75, 0x30]);
    assert_eq!(Message::Accepted.encode(), vec![0, 4]);
    assert_eq!(Message::End.encode(), vec![0, 5]);
    assert_eq!(Message::Ack(258).encode(), vec![0, 7, 0, 0, 1, 2]);
}

#[test]
fn encodes_info_file_with_left_padding() {
    let m = Message::InfoFile(FileData { filename: "a.txt".to_string(), file_size: 3500 });
    let mut expected = vec![0u8, 3];
    expected.extend(std::iter::repeat(0u8).take(10));
    expected.extend(b"a.txt");
    expected.extend([0, 0, 0, 0, 0, 0, 0x0d, 0xac]);
    assert_eq!(m.encode(), expected);
    assert_eq!(m.encode().len(), 25);
}

#[test]
fn encodes_file_chunk() {
    let m = Message::File(ChunkData { sequence_number: 3, payload_size: 2, data: vec![9, 8] });
    assert_eq!(m.encode(), vec![0, 6, 0, 0, 0, 3, 0, 2, 9, 8]);
}

#[test]
fn round_trip_of_every_kind() {
    let messages = vec![
        Message::Hello,
        Message::Connection(0xfedc_ba98),
        Message::InfoFile(FileData { filename: "report.pdf".to_string(), file_size: u64::MAX }),
        Message::InfoFile(FileData { filename: "abcdefghijk.txt".to_string(), file_size: 0 }),
        Message::Accepted,
        Message::End,
        Message::File(ChunkData { sequence_number: 7, payload_size: 0, data: vec![] }),
        Message::File(ChunkData {
            sequence_number: u32::MAX,
            payload_size: 1000,
            data: (0..1000).map(|i| (i % 251) as u8).collect(),
        }),
        Message::Ack(0),
    ];
    for m in &messages {
        let bytes = m.encode();
        let back = Message::new(&bytes, bytes.len()).map_err(|e| e.message()).unwrap();
        assert_same(m, &back);
    }
}

#[test]
fn too_short_exactly_below_required_length() {
    let cases: Vec<(u8, usize)> = vec![(1, 2), (2, 6), (3, 25), (4, 2), (5, 2), (6, 8), (7, 6)];
    for (tag, required) in cases {
        let mut buf = vec![0u8; 40];
        buf[1] = tag;
        for k in 0..required {
            let r = Message::new(&buf, k);
            let expected = if k < 2 { too_short_text(2) } else { too_short_text(required) };
            assert_eq!(r.err().map(|e| e.message()), Some(expected));
        }
        let r = Message::new(&buf, required);
        assert!(r.is_ok(), "tag {} at its required length", tag);
    }
    assert_eq!(decode(&[]).err(), Some(too_short_text(2)));
    assert_eq!(decode(&[0]).err(), Some(too_short_text(2)));
    assert_eq!(
        decode(&[0, 2, 0]).err(),
        Some(
            "Foram lidos menos de 6 bytes para uma mensagem que deve conter no mínimo 6 bytes"
                .to_string()
        )
    );
}

#[test]
fn unknown_kind_is_rejected() {
    assert_eq!(decode(&[0, 0]).err(), Some("Tipo de mensagem desconhecido.".to_string()));
    assert_eq!(decode(&[0, 8, 1, 2, 3, 4]).err(), Some("Tipo de mensagem desconhecido.".to_string()));
    assert_eq!(decode(&[0, 255]).err(), Some("Tipo de mensagem desconhecido.".to_string()));
}

#[test]
fn non_ascii_name_is_rejected() {
    let mut buf = Message::InfoFile(FileData { filename: "a.txt".to_string(), file_size: 1 })
        .encode();
    buf[3] = 0xc3;
    buf[4] = 0xa9;
    assert_eq!(decode(&buf).err(), Some("Falha ao converter bytes para string".to_string()));
    let mut buf2 = vec![0u8; 25];
    buf2[1] = 3;
    buf2[16] = 0x80;
    assert_eq!(decode(&buf2).err(), Some("Falha ao converter bytes para string".to_string()));
}

#[test]
fn name_is_trimmed_of_zero_bytes_at_both_ends() {
    let mut buf = vec![0u8; 25];
    buf[1] = 3;
    buf[5] = b'x';
    buf[6] = b'.';
    buf[7] = b'y';
    buf[24] = 9;
    match decode(&buf).unwrap() {
        Message::InfoFile(fd) => {
            assert_eq!(fd.filename, "x.y");
            assert_eq!(fd.file_size, 9);
        }
        _ => panic!("expected InfoFile"),
    }
    let mut empty = vec![0u8; 25];
    empty[1] = 3;
    match decode(&empty).unwrap() {
        Message::InfoFile(fd) => assert_eq!(fd.filename, ""),
        _ => panic!("expected InfoFile"),
    }
}

#[test]
fn payload_length_mismatch_is_malformed() {
    let buf = vec![0u8, 6, 0, 0, 0, 1, 0, 3, 1, 2];
    assert_eq!(
        decode(&buf).err(),
        Some("O tamanho do conteúdo difere do tamanho informado".to_string())
    );
    let ok = vec![0u8, 6, 0, 0, 0, 1, 0, 2, 1, 2];
    match decode(&ok).unwrap() {
        Message::File(c) => {
            assert_eq!(c.sequence_number, 1);
            assert_eq!(c.payload_size, 2);
            assert_eq!(c.data, vec![1, 2]);
        }
        _ => panic!("expected File"),
    }
}

#[test]
fn decode_uses_only_the_bytes_read() {
    let mut buf = [0u8; 1024];
    buf[1] = 7;
    buf[5] = 4;
    buf[100] = 1;
    match Message::new(&buf, 6) {
        Ok(Message::Ack(4)) => {}
        _ => panic!("expected Ack(4)"),
    }
}

#[test]
fn control_read_outcomes() {
    let buf = [0u8, 5, 0, 0];
    assert!(matches!(message_from_read(Ok(0), &buf), Err(GenericError::Closed)));
    assert!(matches!(message_from_read(Ok(2), &buf), Ok(Message::End)));
    assert!(matches!(message_from_read(Ok(1), &buf), Err(GenericError::Logic(_))));
    let failed = std::io::Error::new(std::io::ErrorKind::Other, "down");
    assert!(matches!(message_from_read(Err(failed), &buf), Err(GenericError::IO(_))));
}

#[test]
fn transforms_wrap_errors() {
    let r: Result<u8, GenericError> = GenericError::transform_io(Ok(5));
    assert!(matches!(r, Ok(5)));
    let e = std::io::Error::new(std::io::ErrorKind::Other, "x");
    let r: Result<u8, GenericError> = GenericError::transform_io(Err(e));
    assert!(matches!(r, Err(GenericError::IO(_))));
    let r: Result<u8, GenericError> = GenericError::transform_logic(Err(
        udp_upload::message::MessageCreationError::new("bad"),
    ));
    match r {
        Err(GenericError::Logic(e)) => assert_eq!(e.message(), "bad"),
        _ => panic!("expected a logic error"),
    }
}
