//! The handshake of a session: the control messages each side sends, the
//! UDP port each session gets, and the check of the announced file.
use vstd::prelude::*;
use crate::filename::{valid_filename, Filename};
use crate::message::{encode_frame, FileData, Message, MessageCreationError, MessageView};
use crate::network::GenericError;
use crate::receiver::expected_chunks_of;

verus! {

/// The UDP port of the first session.
pub const FIRST_UDP_PORT: u16 = 30000;

/// How far apart the UDP ports of consecutive sessions are.
pub const UDP_PORT_STEP: u16 = 10;

/// The client's greeting.
pub fn create_hello_message() -> (r: Vec<u8>)
    ensures
        r@ == encode_frame(MessageView::Hello),
{
    Message::Hello.encode()
}

/// The server's answer to `InfoFile`: ready to receive.
pub fn build_ok_message() -> (r: Vec<u8>)
    ensures
        r@ == encode_frame(MessageView::Accepted),
{
    Message::Accepted.encode()
}

/// The server's answer to `Hello`: the UDP port to send chunks to.
pub fn build_connection_message(udp_port: u16) -> (r: Vec<u8>)
    ensures
        r@ == encode_frame(MessageView::Connection(udp_port as u32)),
{
    Message::Connection(udp_port as u32).encode()
}

/// The client's announcement of the file it uploads.
pub fn create_info_file_message(filename: &Filename, file_size: u64) -> (r: Vec<u8>)
    requires
        valid_filename(filename.filename@),
    ensures
        r@ == encode_frame(MessageView::InfoFile(filename.filename@, file_size)),
{
    let m = Message::InfoFile(FileData { filename: filename.filename.clone(), file_size });
    m.encode()
}

/// The server's acknowledgement of chunk `seq`.
pub fn ack_message(seq: u32) -> (r: Vec<u8>)
    ensures
        r@ == encode_frame(MessageView::Ack(seq)),
{
    Message::Ack(seq).encode()
}

/// The server's announcement that the file is written.
pub fn end_message() -> (r: Vec<u8>)
    ensures
        r@ == encode_frame(MessageView::End),
{
    Message::End.encode()
}

/// Hands out one UDP port per session: the first, then each one ten above
/// the one before, wrapping round past the largest port.
pub struct PortAllocator {
    next: u16,
}

impl View for PortAllocator {
    type V = u16;

    closed spec fn view(&self) -> u16 {
        self.next
    }
}

impl PortAllocator {
    pub fn new() -> (r: PortAllocator)
        ensures
            r@ == FIRST_UDP_PORT,
    {
        PortAllocator { next: FIRST_UDP_PORT }
    }

    /// The port of a new session.
    pub fn allocate(&mut self) -> (r: u16)
        ensures
            r == old(self)@,
            final(self)@ == (old(self)@ + UDP_PORT_STEP) % 0x1_0000,
    {
        let port = self.next;
        self.next = if port <= u16::MAX - UDP_PORT_STEP {
            port + UDP_PORT_STEP
        } else {
            port - (u16::MAX - UDP_PORT_STEP + 1)
        };
        port
    }
}

/// The largest number of chunks a session can take: one per sequence number.
pub open spec fn receivable(file_size: u64) -> bool {
    expected_chunks_of(file_size as nat) <= 0x1_0000_0000 && expected_chunks_of(file_size as nat)
        <= usize::MAX
}

/// The server's check of the message that should announce the file: an
/// `InfoFile` whose chunks can all be numbered is accepted; anything else
/// ends the session with a logic error.
pub fn accept_info_file(message: Message) -> (r: Result<FileData, GenericError>)
    ensures
        match message@ {
            MessageView::InfoFile(name, size) => if receivable(size) {
                r matches Ok(fd) && fd.filename@ == name && fd.file_size == size
            } else {
                r matches Err(GenericError::Logic(e)) && e@ == "Arquivo grande demais para ser recebido"@
            },
            _ => r matches Err(GenericError::Logic(e)) && e@ == "Tipo de mensagem inesperado"@,
        },
{
    match message {
        Message::InfoFile(file_data) => {
            let chunks = file_data.file_size / 1000 + 1;
            if chunks > 0x1_0000_0000 || chunks as u128 > usize::MAX as u128 {
                Err(GenericError::Logic(MessageCreationError::new("Arquivo grande demais para ser recebido")))
            } else {
                Ok(file_data)
            }
        },
        _ => Err(GenericError::Logic(MessageCreationError::new("Tipo de mensagem inesperado"))),
    }
}

} // verus!
