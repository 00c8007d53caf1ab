//! The seven protocol messages and their binary framing.
//!
//! Every message starts with a zero byte and a tag byte; integers are
//! big-endian and fields sit at fixed offsets.
use vstd::prelude::*;
use vstd::slice::slice_to_vec;
use vstd::utf8::{
    decode_utf8, encode_utf8, is_ascii_chars, is_ascii_chars_encode_utf8,
    is_ascii_chars_nat_bound, is_leading_byte_width_1, partial_valid_utf8,
    partial_valid_utf8_extend_ascii_block, valid_utf8, encode_utf8_decode_utf8,
};
use crate::bytes::{
    be_bytes, be_value, lemma_be_round_trip, pow256, push_be, u16_from_u8_array,
    u32_from_u8_array, u64_from_u8_array,
};

verus! {

/// Width of the file-name field of an `InfoFile` message.
pub const NAME_FIELD_LEN: usize = 15;

/// What an `InfoFile` message announces.
pub struct FileData {
    pub filename: String,
    pub file_size: u64,
}

/// One chunk of the file, as carried by a `File` datagram.
pub struct ChunkData {
    pub sequence_number: u32,
    pub payload_size: u16,
    pub data: Vec<u8>,
}

pub enum Message {
    Hello,
    Connection(u32),
    InfoFile(FileData),
    Accepted,
    End,
    File(ChunkData),
    Ack(u32),
}

/// The mathematical content of a [`Message`].
pub enum MessageView {
    Hello,
    Connection(u32),
    InfoFile(Seq<char>, u64),
    Accepted,
    End,
    File(u32, u16, Seq<u8>),
    Ack(u32),
}

impl View for Message {
    type V = MessageView;

    open spec fn view(&self) -> MessageView {
        match self {
            Message::Hello => MessageView::Hello,
            Message::Connection(p) => MessageView::Connection(*p),
            Message::InfoFile(fd) => MessageView::InfoFile(fd.filename@, fd.file_size),
            Message::Accepted => MessageView::Accepted,
            Message::End => MessageView::End,
            Message::File(c) => MessageView::File(c.sequence_number, c.payload_size, c.data@),
            Message::Ack(s) => MessageView::Ack(*s),
        }
    }
}

/// Why a buffer does not decode to a message.
pub enum FramingError {
    /// Fewer bytes than the message needs; the least it needs.
    TooShort(u8),
    UnknownKind,
    /// The name field of an `InfoFile` is not ASCII text.
    BadName,
    /// A `File` payload whose length differs from its length field.
    Malformed,
}

impl FramingError {
    /// The text that a decoding error of this kind carries.
    pub open spec fn text(self) -> Seq<char> {
        match self {
            FramingError::TooShort(6) => "Foram lidos menos de 6 bytes para uma mensagem que deve conter no mínimo 6 bytes"@,
            FramingError::TooShort(8) => "Foram lidos menos de 8 bytes para uma mensagem que deve conter no mínimo 8 bytes"@,
            FramingError::TooShort(25) => "Foram lidos menos de 25 bytes para uma mensagem que deve conter no mínimo 25 bytes"@,
            FramingError::TooShort(_) => "Foram lidos menos de 2 bytes, o que é insuficiente para determinar o tipo de mensagem"@,
            FramingError::UnknownKind => "Tipo de mensagem desconhecido."@,
            FramingError::BadName => "Falha ao converter bytes para string"@,
            FramingError::Malformed => "O tamanho do conteúdo difere do tamanho informado"@,
        }
    }
}

/// A message that could not be decoded, with a description of the fault.
pub struct MessageCreationError {
    msg: String,
}

impl View for MessageCreationError {
    type V = Seq<char>;

    closed spec fn view(&self) -> Seq<char> {
        self.msg@
    }
}

impl MessageCreationError {
    pub fn new(msg: &str) -> (r: MessageCreationError)
        ensures
            r@ == msg@,
    {
        MessageCreationError { msg: msg.to_owned() }
    }

    /// The description of the fault.
    pub fn message(&self) -> (r: String)
        ensures
            r@ == self@,
    {
        self.msg.clone()
    }
}

/// `n` zero bytes.
pub open spec fn zeros(n: nat) -> Seq<u8> {
    Seq::new(n, |i: int| 0u8)
}

/// `s` without its leading zero bytes.
pub open spec fn trim_start_nul(s: Seq<u8>) -> Seq<u8>
    decreases s.len(),
{
    if s.len() > 0 && s[0] == 0 {
        trim_start_nul(s.drop_first())
    } else {
        s
    }
}

/// `s` without its trailing zero bytes.
pub open spec fn trim_end_nul(s: Seq<u8>) -> Seq<u8>
    decreases s.len(),
{
    if s.len() > 0 && s.last() == 0 {
        trim_end_nul(s.drop_last())
    } else {
        s
    }
}

/// `s` without the zero bytes at either end.
pub open spec fn trim_nul(s: Seq<u8>) -> Seq<u8> {
    trim_end_nul(trim_start_nul(s))
}

/// Every byte of `s` is an ASCII code.
pub open spec fn ascii_bytes(s: Seq<u8>) -> bool {
    forall|i: int| 0 <= i < s.len() ==> #[trigger] s[i] < 128
}

/// A file name that an `InfoFile` message can carry: ASCII, and at most the
/// width of the name field.
pub open spec fn name_fits(name: Seq<char>) -> bool {
    is_ascii_chars(name) && name.len() <= NAME_FIELD_LEN
}

/// The bytes of a message on the wire.
pub open spec fn encode_frame(m: MessageView) -> Seq<u8> {
    match m {
        MessageView::Hello => seq![0u8, 1u8],
        MessageView::Connection(port) => seq![0u8, 2u8] + be_bytes(port as nat, 4),
        MessageView::InfoFile(name, size) => seq![0u8, 3u8] + zeros(
            (NAME_FIELD_LEN - encode_utf8(name).len()) as nat,
        ) + encode_utf8(name) + be_bytes(size as nat, 8),
        MessageView::Accepted => seq![0u8, 4u8],
        MessageView::End => seq![0u8, 5u8],
        MessageView::File(seq, len, data) => seq![0u8, 6u8] + be_bytes(seq as nat, 4) + be_bytes(
            len as nat,
            2,
        ) + data,
        MessageView::Ack(seq) => seq![0u8, 7u8] + be_bytes(seq as nat, 4),
    }
}

/// The length that a buffer whose tag byte is `tag` must at least have.
pub open spec fn required_len(tag: u8) -> nat {
    if tag == 2 || tag == 7 {
        6
    } else if tag == 3 {
        25
    } else if tag == 6 {
        8
    } else {
        2
    }
}

/// The message that a received buffer `b` holds, or why it holds none.
pub open spec fn decode_frame(b: Seq<u8>) -> Result<MessageView, FramingError> {
    if b.len() < 2 {
        Err(FramingError::TooShort(2))
    } else if !(1 <= b[1] <= 7) {
        Err(FramingError::UnknownKind)
    } else if b.len() < required_len(b[1]) {
        Err(FramingError::TooShort(required_len(b[1]) as u8))
    } else if b[1] == 1 {
        Ok(MessageView::Hello)
    } else if b[1] == 2 {
        Ok(MessageView::Connection(be_value(b.subrange(2, 6)) as u32))
    } else if b[1] == 3 {
        let field = b.subrange(2, 17);
        if ascii_bytes(field) {
            Ok(
                MessageView::InfoFile(
                    decode_utf8(trim_nul(field)),
                    be_value(b.subrange(17, 25)) as u64,
                ),
            )
        } else {
            Err(FramingError::BadName)
        }
    } else if b[1] == 4 {
        Ok(MessageView::Accepted)
    } else if b[1] == 5 {
        Ok(MessageView::End)
    } else if b[1] == 6 {
        let data = b.subrange(8, b.len() as int);
        if data.len() == be_value(b.subrange(6, 8)) {
            Ok(
                MessageView::File(
                    be_value(b.subrange(2, 6)) as u32,
                    be_value(b.subrange(6, 8)) as u16,
                    data,
                ),
            )
        } else {
            Err(FramingError::Malformed)
        }
    } else {
        Ok(MessageView::Ack(be_value(b.subrange(2, 6)) as u32))
    }
}

/// `r` is what decoding gives when the frame decodes to `d`.
pub open spec fn decoded_as(
    r: Result<Message, MessageCreationError>,
    d: Result<MessageView, FramingError>,
) -> bool {
    match (r, d) {
        (Ok(m), Ok(v)) => m@ == v,
        (Err(e), Err(k)) => e@ == k.text(),
        _ => false,
    }
}

impl MessageView {
    /// The message can be put on the wire: a name that fits its field.
    pub open spec fn encodable(self) -> bool {
        match self {
            MessageView::InfoFile(name, _) => name_fits(name),
            _ => true,
        }
    }

    /// The message can be put on the wire and read back unchanged: a name
    /// that fits and has no zero character at either end, and a payload
    /// whose length is the one announced.
    pub open spec fn well_formed(self) -> bool {
        match self {
            MessageView::InfoFile(name, _) => name_fits(name) && (name.len() == 0 || (name[0]
                != '\0' && name.last() != '\0')),
            MessageView::File(_, len, data) => data.len() == len,
            _ => true,
        }
    }
}

/// Relies on std::str::from_utf8: it accepts exactly the valid UTF-8 byte
/// sequences, and the text it returns is the one those bytes encode.
#[verifier::external_body]
fn text_from_utf8(bytes: &[u8]) -> (r: Option<String>)
    ensures
        r is Some <==> valid_utf8(bytes@),
        r matches Some(s) ==> s@ == decode_utf8(bytes@),
{
    match std::str::from_utf8(bytes) {
        Ok(s) => Some(s.to_owned()),
        Err(_) => None,
    }
}

fn too_short(required: u8) -> (r: MessageCreationError)
    ensures
        r@ == FramingError::TooShort(required).text(),
{
    if required == 6 {
        MessageCreationError::new("Foram lidos menos de 6 bytes para uma mensagem que deve conter no mínimo 6 bytes")
    } else if required == 8 {
        MessageCreationError::new("Foram lidos menos de 8 bytes para uma mensagem que deve conter no mínimo 8 bytes")
    } else if required == 25 {
        MessageCreationError::new("Foram lidos menos de 25 bytes para uma mensagem que deve conter no mínimo 25 bytes")
    } else {
        MessageCreationError::new("Foram lidos menos de 2 bytes, o que é insuficiente para determinar o tipo de mensagem")
    }
}

fn bad_name() -> (r: MessageCreationError)
    ensures
        r@ == FramingError::BadName.text(),
{
    MessageCreationError::new("Falha ao converter bytes para string")
}

fn malformed() -> (r: MessageCreationError)
    ensures
        r@ == FramingError::Malformed.text(),
{
    MessageCreationError::new("O tamanho do conteúdo difere do tamanho informado")
}

proof fn lemma_ascii_valid_utf8(s: Seq<u8>)
    requires
        ascii_bytes(s),
    ensures
        valid_utf8(s),
{
    assert(s.subrange(0, 0) =~= Seq::<u8>::empty());
    assert(partial_valid_utf8(s, 0));
    assert forall|i: int| 0 <= 0 <= i < s.len() <= s.len() implies #[trigger] is_leading_byte_width_1(
        s[i],
    ) by {
        assert(s[i] < 128);
    }
    partial_valid_utf8_extend_ascii_block(s, 0, s.len() as int);
    assert(s.subrange(0, s.len() as int) =~= s);
}

fn create_connection(bytes_read: usize, message_type: &[u8]) -> (r: Result<
    Message,
    MessageCreationError,
>)
    requires
        2 <= bytes_read <= message_type@.len(),
        message_type@[1] == 2,
    ensures
        decoded_as(r, decode_frame(message_type@.take(bytes_read as int))),
{
    let ghost b = message_type@.take(bytes_read as int);
    if bytes_read < 6 {
        return Err(too_short(6));
    }
    let port = u32_from_u8_array(&message_type[2..6]);
    assert(message_type@.subrange(2, 6).take(4) =~= b.subrange(2, 6));
    Ok(Message::Connection(port))
}

fn create_ack(bytes_read: usize, message_type: &[u8]) -> (r: Result<
    Message,
    MessageCreationError,
>)
    requires
        2 <= bytes_read <= message_type@.len(),
        message_type@[1] == 7,
    ensures
        decoded_as(r, decode_frame(message_type@.take(bytes_read as int))),
{
    let ghost b = message_type@.take(bytes_read as int);
    if bytes_read < 6 {
        return Err(too_short(6));
    }
    let sequence_number = u32_from_u8_array(&message_type[2..6]);
    assert(message_type@.subrange(2, 6).take(4) =~= b.subrange(2, 6));
    Ok(Message::Ack(sequence_number))
}

fn create_file(bytes_read: usize, message_type: &[u8]) -> (r: Result<
    Message,
    MessageCreationError,
>)
    requires
        2 <= bytes_read <= message_type@.len(),
        message_type@[1] == 6,
    ensures
        decoded_as(r, decode_frame(message_type@.take(bytes_read as int))),
{
    let ghost b = message_type@.take(bytes_read as int);
    if bytes_read < 8 {
        return Err(too_short(8));
    }
    let sequence_number = u32_from_u8_array(&message_type[2..6]);
    assert(message_type@.subrange(2, 6).take(4) =~= b.subrange(2, 6));
    let payload_size = u16_from_u8_array(&message_type[6..8]);
    assert(message_type@.subrange(6, 8).take(2) =~= b.subrange(6, 8));
    let data = slice_to_vec(&message_type[8..bytes_read]);
    assert(data@ =~= b.subrange(8, b.len() as int));
    if data.len() != payload_size as usize {
        return Err(malformed());
    }
    Ok(Message::File(ChunkData { sequence_number, payload_size, data }))
}

fn create_info_file(bytes_read: usize, message_type: &[u8]) -> (r: Result<
    Message,
    MessageCreationError,
>)
    requires
        2 <= bytes_read <= message_type@.len(),
        message_type@[1] == 3,
    ensures
        decoded_as(r, decode_frame(message_type@.take(bytes_read as int))),
{
    let ghost b = message_type@.take(bytes_read as int);
    if bytes_read < 25 {
        return Err(too_short(25));
    }
    let ghost field = b.subrange(2, 17);
    let mut i: usize = 2;
    while i < 17
        invariant
            2 <= i <= 17,
            25 <= bytes_read <= message_type@.len(),
            message_type@[1] == 3,
            b == message_type@.take(bytes_read as int),
            field == b.subrange(2, 17),
            field == message_type@.subrange(2, 17),
            forall|j: int| 2 <= j < i ==> #[trigger] message_type@[j] < 128,
        decreases 17 - i,
    {
        if message_type[i] >= 128 {
            assert(field[i - 2] >= 128);
            assert(!ascii_bytes(field));
            return Err(bad_name());
        }
        i = i + 1;
    }
    assert(ascii_bytes(field)) by {
        assert forall|j: int| 0 <= j < field.len() implies #[trigger] field[j] < 128 by {
            assert(message_type@[j + 2] < 128);
        }
    }
    let mut start: usize = 2;
    while start < 17 && message_type[start] == 0
        invariant
            2 <= start <= 17,
            25 <= message_type@.len(),
            field == message_type@.subrange(2, 17),
            trim_start_nul(field) == trim_start_nul(message_type@.subrange(start as int, 17)),
        decreases 17 - start,
    {
        assert(message_type@.subrange(start as int, 17).drop_first() =~= message_type@.subrange(
            start + 1,
            17,
        ));
        start = start + 1;
    }
    let mut end: usize = 17;
    while end > start && message_type[end - 1] == 0
        invariant
            2 <= start <= end <= 17,
            25 <= message_type@.len(),
            trim_end_nul(message_type@.subrange(start as int, 17)) == trim_end_nul(
                message_type@.subrange(start as int, end as int),
            ),
        decreases end - start,
    {
        assert(message_type@.subrange(start as int, end as int).drop_last() =~= message_type@.subrange(
            start as int,
            end - 1,
        ));
        end = end - 1;
    }
    let name = &message_type[start..end];
    assert(name@ == trim_nul(field));
    assert(ascii_bytes(name@)) by {
        assert forall|j: int| 0 <= j < name@.len() implies #[trigger] name@[j] < 128 by {
            assert(name@[j] == field[j + start - 2]);
        }
    }
    proof {
        lemma_ascii_valid_utf8(name@);
    }
    let filename = match text_from_utf8(name) {
        Some(s) => s,
        None => {
            return Err(bad_name());
        },
    };
    let file_size = u64_from_u8_array(&message_type[17..25]);
    assert(message_type@.subrange(17, 25).take(8) =~= b.subrange(17, 25));
    Ok(Message::InfoFile(FileData { filename, file_size }))
}

impl Message {
    /// Decodes the first `bytes_read` bytes of `message_type`.
    pub fn new(message_type: &[u8], bytes_read: usize) -> (r: Result<Message, MessageCreationError>)
        requires
            bytes_read <= message_type@.len(),
        ensures
            decoded_as(r, decode_frame(message_type@.take(bytes_read as int))),
    {
        if bytes_read < 2 {
            return Err(too_short(2));
        }
        let message_type_byte = message_type[1];
        match message_type_byte {
            1 => Ok(Message::Hello),
            2 => create_connection(bytes_read, message_type),
            3 => create_info_file(bytes_read, message_type),
            4 => Ok(Message::Accepted),
            5 => Ok(Message::End),
            6 => create_file(bytes_read, message_type),
            7 => create_ack(bytes_read, message_type),
            _ => Err(MessageCreationError::new("Tipo de mensagem desconhecido.")),
        }
    }

    /// The bytes of this message on the wire.
    pub fn encode(&self) -> (r: Vec<u8>)
        requires
            self@.encodable(),
        ensures
            r@ == encode_frame(self@),
    {
        let mut out: Vec<u8> = Vec::new();
        out.push(0);
        match self {
            Message::Hello => {
                out.push(1);
            },
            Message::Connection(port) => {
                out.push(2);
                push_be(&mut out, *port as u64, 4);
            },
            Message::InfoFile(fd) => {
                out.push(3);
                let name = fd.filename.as_str().as_bytes();
                proof {
                    is_ascii_chars_encode_utf8(fd.filename@);
                }
                let pad = NAME_FIELD_LEN - name.len();
                let mut k: usize = 0;
                while k < pad
                    invariant
                        k <= pad,
                        out@ == seq![0u8, 3u8] + zeros(k as nat),
                    decreases pad - k,
                {
                    out.push(0);
                    k = k + 1;
                    assert(out@ =~= seq![0u8, 3u8] + zeros(k as nat));
                }
                let mut j: usize = 0;
                while j < name.len()
                    invariant
                        j <= name@.len(),
                        out@ == seq![0u8, 3u8] + zeros(pad as nat) + name@.take(j as int),
                    decreases name@.len() - j,
                {
                    out.push(name[j]);
                    j = j + 1;
                    assert(out@ =~= seq![0u8, 3u8] + zeros(pad as nat) + name@.take(j as int));
                }
                assert(name@.take(j as int) =~= name@);
                push_be(&mut out, fd.file_size, 8);
            },
            Message::Accepted => {
                out.push(4);
            },
            Message::End => {
                out.push(5);
            },
            Message::File(c) => {
                out.push(6);
                push_be(&mut out, c.sequence_number as u64, 4);
                push_be(&mut out, c.payload_size as u64, 2);
                let ghost head = out@;
                let mut j: usize = 0;
                while j < c.data.len()
                    invariant
                        j <= c.data@.len(),
                        out@ == head + c.data@.take(j as int),
                    decreases c.data@.len() - j,
                {
                    out.push(c.data[j]);
                    j = j + 1;
                    assert(out@ =~= head + c.data@.take(j as int));
                }
                assert(c.data@.take(j as int) =~= c.data@);
            },
            Message::Ack(seq) => {
                out.push(7);
                push_be(&mut out, *seq as u64, 4);
            },
        }
        proof {
            assert(out@ =~= encode_frame(self@));
        }
        out
    }
}

/// Removing leading zero bytes from zero padding followed by `s`, where `s`
/// does not itself start with a zero byte, leaves `s`.
proof fn lemma_trim_start_padding(n: nat, s: Seq<u8>)
    requires
        s.len() == 0 || s[0] != 0,
    ensures
        trim_start_nul(zeros(n) + s) == s,
    decreases n,
{
    if n == 0 {
        assert(zeros(n) + s =~= s);
    } else {
        assert((zeros(n) + s).drop_first() =~= zeros((n - 1) as nat) + s);
        lemma_trim_start_padding((n - 1) as nat, s);
    }
}

proof fn lemma_pow256_values()
    ensures
        pow256(2) == 0x1_0000,
        pow256(4) == 0x1_0000_0000,
        pow256(8) == 0x1_0000_0000_0000_0000,
{
    reveal_with_fuel(pow256, 9);
}

/// Decoding the bytes of a well-formed message gives the message back.
pub proof fn lemma_decode_encode(m: MessageView)
    requires
        m.well_formed(),
    ensures
        decode_frame(encode_frame(m)) == Ok::<MessageView, FramingError>(m),
{
    lemma_pow256_values();
    let b = encode_frame(m);
    match m {
        MessageView::Connection(p) => {
            lemma_be_round_trip(p as nat, 4);
            assert(b.subrange(2, 6) =~= be_bytes(p as nat, 4));
        },
        MessageView::Ack(p) => {
            lemma_be_round_trip(p as nat, 4);
            assert(b.subrange(2, 6) =~= be_bytes(p as nat, 4));
        },
        MessageView::File(seq, len, data) => {
            lemma_be_round_trip(seq as nat, 4);
            lemma_be_round_trip(len as nat, 2);
            assert(b.subrange(2, 6) =~= be_bytes(seq as nat, 4));
            assert(b.subrange(6, 8) =~= be_bytes(len as nat, 2));
            assert(b.subrange(8, b.len() as int) =~= data);
        },
        MessageView::InfoFile(name, size) => {
            let nb = encode_utf8(name);
            is_ascii_chars_encode_utf8(name);
            is_ascii_chars_nat_bound(name);
            let pad = (NAME_FIELD_LEN - nb.len()) as nat;
            lemma_be_round_trip(size as nat, 8);
            let field = b.subrange(2, 17);
            assert(field =~= zeros(pad) + nb);
            assert(b.subrange(17, 25) =~= be_bytes(size as nat, 8));
            assert(ascii_bytes(field)) by {
                assert forall|i: int| 0 <= i < field.len() implies #[trigger] field[i] < 128 by {
                    if i >= pad {
                        assert(field[i] == nb[i - pad]);
                        assert((name[i - pad] as nat) < 128);
                    }
                }
            }
            if nb.len() > 0 {
                assert(nb[0] == name[0] as u8);
                assert(nb.last() == name.last() as u8);
            }
            lemma_trim_start_padding(pad, nb);
            assert(trim_end_nul(nb) == nb);
            encode_utf8_decode_utf8(name);
        },
        _ => {},
    }
}

/// A buffer is rejected as too short exactly when it has fewer than two
/// bytes, or names a known kind and is shorter than that kind requires.
pub proof fn lemma_too_short_iff(b: Seq<u8>)
    ensures
        (decode_frame(b) matches Err(FramingError::TooShort(_))) <==> (b.len() < 2 || (1 <= b[1]
            <= 7 && b.len() < required_len(b[1]))),
{
}

/// An `InfoFile` buffer with a byte outside ASCII in its name field is
/// rejected for its name.
pub proof fn lemma_non_ascii_name_rejected(b: Seq<u8>, i: int)
    requires
        b.len() >= 25,
        b[1] == 3,
        2 <= i < 17,
        b[i] >= 128,
    ensures
        decode_frame(b) == Err::<MessageView, FramingError>(FramingError::BadName),
{
    assert(b.subrange(2, 17)[i - 2] == b[i]);
}

} // verus!
