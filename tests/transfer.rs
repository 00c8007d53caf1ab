use std::collections::VecDeque;
use udp_upload::message::Message;
use udp_upload::receiver::ReceiveWindow;
use udp_upload::sender::{chunk_count, file_chunk_message, SendWindow};
use udp_upload::session::{
    accept_info_file, build_connection_message, build_ok_message, create_hello_message,
    create_info_file_message, end_message, PortAllocator,
};
use udp_upload::filename::Filename;
use udp_upload::network::GenericError;

struct Outcome {
    acks: Vec<u32>,
    written: Option<Vec<u8>>,
    retransmitted: bool,
}

/// Runs one upload with the sender's and the receiver's windows joined by
/// in-memory channels; `drop_first` names a chunk lost on its first send.
fn run(file: &[u8], drop_first: Option<u32>) -> Outcome {
    let n = chunk_count(file.len()) as u32;
    let mut sender = SendWindow::new(n, 0);
    let mut receiver = ReceiveWindow::new(file.len() as u64);
    let mut acks_in_flight: VecDeque<u32> = VecDeque::new();
    let mut acks = Vec::new();
    let mut written = None;
    let mut dropped = false;
    let mut retransmitted = false;
    let mut now: u64 = 0;
    let mut deliver = |seq: u32,
                       receiver: &mut ReceiveWindow,
                       acks_in_flight: &mut VecDeque<u32>,
                       written: &mut Option<Vec<u8>>,
                       dropped: &mut bool| {
        if drop_first == Some(seq) && !*dropped {
            *dropped = true;
            return;
        }
        if written.is_some() {
            return;
        }
        let d = file_chunk_message(file, seq);
        let step = receiver.handle_datagram(&d, d.len()).ok().unwrap();
        if let Some(a) = step.ack {
            acks_in_flight.push_back(a);
        }
        if step.finished {
            *written = Some(receiver.assemble());
        }
    };
    let mut rounds = 0;
    while rounds < 10_000 {
        rounds += 1;
        let ack = acks_in_flight.pop_front();
        if let Some(a) = ack {
            acks.push(a);
        }
        let action = sender.step(false, ack, now);
        if action.stop {
            break;
        }
        if let Some(seq) = action.send {
            deliver(seq, &mut receiver, &mut acks_in_flight, &mut written, &mut dropped);
        }
        if action.pause {
            now += 5;
        }
        if !action.resend.is_empty() {
            retransmitted = true;
        }
        for seq in action.resend {
            deliver(seq, &mut receiver, &mut acks_in_flight, &mut written, &mut dropped);
        }
    }
    acks.extend(acks_in_flight);
    Outcome { acks, written, retransmitted }
}

fn file_of(len: usize) -> Vec<u8> {
    (0..len).map(|i| (i * 13 % 256) as u8).collect()
}

#[test]
fn upload_of_an_empty_file() {
    let out = run(&[], None);
    assert_eq!(out.acks, vec![0]);
    assert_eq!(out.written, Some(vec![]));
}

#[test]
fn upload_of_500_bytes() {
    let file = file_of(500);
    let out = run(&file, None);
    assert_eq!(out.acks, vec![0]);
    assert_eq!(out.written, Some(file));
}

#[test]
fn upload_of_3500_bytes() {
    let file = file_of(3500);
    let out = run(&file, None);
    assert_eq!(out.acks, vec![0, 1, 2, 3]);
    assert!(!out.retransmitted);
    assert_eq!(out.written.map(|w| w.len()), Some(3500));
    assert_eq!(run(&file, None).written, Some(file));
}

#[test]
fn lost_chunk_is_sent_again_after_the_timeout() {
    let file = file_of(3500);
    let out = run(&file, Some(2));
    assert!(out.retransmitted);
    assert_eq!(out.written, Some(file));
    assert_eq!(*out.acks.last().unwrap(), 3);
}

#[test]
fn larger_upload_with_a_loss() {
    let file = file_of(25_500);
    let out = run(&file, Some(7));
    assert!(out.retransmitted);
    assert_eq!(out.written, Some(file));
}

#[test]
fn consecutive_sessions_get_ports_ten_apart() {
    let mut ports = PortAllocator::new();
    assert_eq!(ports.allocate(), 30000);
    assert_eq!(ports.allocate(), 30010);
    assert_eq!(ports.allocate(), 30020);
}

#[test]
fn port_allocation_wraps_round() {
    let mut ports = PortAllocator::new();
    let mut last = 0;
    for _ in 0..3554 {
        last = ports.allocate();
    }
    assert_eq!(last, 65530);
    assert_eq!(ports.allocate(), 4);
}

#[test]
fn handshake_messages() {
    assert_eq!(create_hello_message(), vec![0, 1]);
    assert_eq!(build_connection_message(30010), vec![0, 2, 0, 0, 0x75, 0x3a]);
    assert_eq!(build_ok_message(), vec![0, 4]);
    assert_eq!(end_message(), vec![0, 5]);
    let name = Filename::new(Some("notes.md".to_string())).ok().unwrap();
    let info = create_info_file_message(&name, 3500);
    assert_eq!(info.len(), 25);
    assert_eq!(&info[..9], &[0, 3, 0, 0, 0, 0, 0, 0, 0]);
    assert_eq!(&info[9..17], b"notes.md");
    assert_eq!(&info[17..], &[0, 0, 0, 0, 0, 0, 0x0d, 0xac]);
}

#[test]
fn server_accepts_only_an_announced_file() {
    let name = Filename::new(Some("notes.md".to_string())).ok().unwrap();
    let info = create_info_file_message(&name, 42);
    let m = Message::new(&info, info.len()).ok().unwrap();
    match accept_info_file(m) {
        Ok(fd) => {
            assert_eq!(fd.filename, "notes.md");
            assert_eq!(fd.file_size, 42);
        }
        Err(_) => panic!("expected the file to be accepted"),
    }
    match accept_info_file(Message::Hello) {
        Err(GenericError::Logic(e)) => assert_eq!(e.message(), "Tipo de mensagem inesperado"),
        _ => panic!("expected a logic error"),
    }
    let huge = Message::InfoFile(udp_upload::message::FileData {
        filename: "big.bin".to_string(),
        file_size: u64::MAX,
    });
    match accept_info_file(huge) {
        Err(GenericError::Logic(e)) => assert_eq!(e.message(), "Arquivo grande demais para ser recebido"),
        _ => panic!("expected a logic error"),
    }
}
