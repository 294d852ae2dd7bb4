//! What the two ends of a transfer agree on, and the address forms of the
//! sending and the receiving side.

use crate::address::{address_error_text, parse_ipv4, parsed_ipv4};
use vstd::prelude::*;

verus! {

/// The largest run of bytes that is read or written at once while a file is streamed.
pub const BUFFER_SIZE: usize = 4194304;

/// The length of the control frame that announces the files of a transfer.
pub const CONTROL_FRAME_SIZE: usize = 1024;

/// The port on which a sender listens and to which a receiver connects.
pub const PORT: u16 = 47102;

/// How long a receiver waits, in milliseconds, before it reads again after a
/// read that brought nothing.
pub const RETRY_DELAY_MS: u64 = 100;

/// What went wrong with a transfer. Each of these ends the session.
#[derive(Clone, Copy, Debug, PartialEq, Eq, Structural)]
pub enum TransferError {
    /// The list of files could not be encoded, or does not fit the control frame.
    Encoding,
    /// The control frame does not hold a list of files.
    Decoding,
    /// Binding, accepting, connecting, reading or writing failed.
    Connection,
    /// Something was reported that cannot follow what was asked for.
    Protocol,
}

/// Where a transfer listens or connects.
#[derive(Clone, Copy, Debug)]
pub struct Endpoint {
    pub ip: [u8; 4],
    pub port: u16,
}

/// A run of `count` zero bytes.
pub open spec fn zeros(count: nat) -> Seq<u8> {
    Seq::new(count, |i: int| 0u8)
}

/// The control frame that carries `encoded`: the bytes followed by zeros up
/// to the length of the frame.
pub open spec fn padded_frame(encoded: Seq<u8>) -> Seq<u8> {
    encoded + zeros((CONTROL_FRAME_SIZE - encoded.len()) as nat)
}

/// A control frame has the agreed length, begins with the bytes it carries,
/// and holds nothing but zeros behind them.
pub proof fn law_frame_carries_payload(encoded: Seq<u8>)
    requires
        encoded.len() <= CONTROL_FRAME_SIZE,
    ensures
        padded_frame(encoded).len() == CONTROL_FRAME_SIZE,
        padded_frame(encoded).take(encoded.len() as int) == encoded,
        forall|i: int|
            encoded.len() <= i < CONTROL_FRAME_SIZE ==> #[trigger] padded_frame(encoded)[i] == 0,
{
    assert(padded_frame(encoded).take(encoded.len() as int) =~= encoded);
}

/// Puts an encoded list of files into a control frame. An encoding that is
/// longer than the frame is refused: no transfer may start with it.
pub fn control_frame(encoded: &Vec<u8>) -> (frame: Result<Vec<u8>, TransferError>)
    ensures
        frame is Ok <==> encoded@.len() <= CONTROL_FRAME_SIZE,
        frame matches Ok(bytes) ==> bytes@ == padded_frame(encoded@) && bytes@.len()
            == CONTROL_FRAME_SIZE,
        frame matches Err(error) ==> error == TransferError::Encoding,
{
    if encoded.len() > CONTROL_FRAME_SIZE {
        return Err(TransferError::Encoding);
    }
    let mut bytes: Vec<u8> = Vec::new();
    let mut i: usize = 0;
    while i < encoded.len()
        invariant
            i <= encoded@.len(),
            bytes@ == encoded@.take(i as int),
        decreases encoded@.len() - i,
    {
        bytes.push(encoded[i]);
        assert(bytes@ =~= encoded@.take(i + 1));
        i += 1;
    }
    assert(encoded@.take(encoded@.len() as int) =~= encoded@);
    while bytes.len() < CONTROL_FRAME_SIZE
        invariant
            encoded@.len() <= bytes@.len() <= CONTROL_FRAME_SIZE,
            bytes@ == encoded@ + zeros((bytes@.len() - encoded@.len()) as nat),
        decreases CONTROL_FRAME_SIZE - bytes@.len(),
    {
        bytes.push(0u8);
        assert(bytes@ =~= encoded@ + zeros((bytes@.len() - encoded@.len()) as nat));
    }
    Ok(bytes)
}

/// The address form of the sending side: the text an operator edits, and what
/// pressing the button makes of it.
#[derive(Debug)]
pub struct FileSenderUi {
    addr_str: String,
}

impl View for FileSenderUi {
    type V = Seq<char>;

    closed spec fn view(&self) -> Seq<char> {
        self.addr_str@
    }
}

impl FileSenderUi {
    /// Starts with the address on which this host listens by default.
    pub fn new() -> (form: Self)
        ensures
            form@ == "192.168.55.47"@,
    {
        FileSenderUi { addr_str: "192.168.55.47".to_owned() }
    }

    /// The text of the address field.
    pub fn address(&self) -> (text: &String)
        ensures
            text@ == self@,
    {
        &self.addr_str
    }

    /// Replaces the text of the address field.
    pub fn set_address(&mut self, text: String)
        ensures
            final(self)@ == text@,
    {
        self.addr_str = text;
    }

    /// What pressing "Send File" means: where the field holds an IPv4 address,
    /// the endpoint to listen on, with the transfer port; else nothing, and
    /// the field then shows the error in place of what was typed.
    pub fn submit(&mut self) -> (target: Option<Endpoint>)
        ensures
            target is Some <==> parsed_ipv4(old(self)@) is Some,
            target matches Some(endpoint) ==> endpoint.ip@ == parsed_ipv4(old(self)@)->0
                && endpoint.port == PORT && final(self)@ == old(self)@,
            target is None ==> final(self)@ == address_error_text(),
    {
        match parse_ipv4(self.addr_str.as_str()) {
            Ok(ip) => Some(Endpoint { ip, port: PORT }),
            Err(error) => {
                self.addr_str = error.message();
                None
            },
        }
    }
}

impl Default for FileSenderUi {
    /// A form with an empty address field.
    fn default() -> (form: Self)
        ensures
            form@ == Seq::<char>::empty(),
    {
        FileSenderUi { addr_str: String::new() }
    }
}

/// The address form of the receiving side.
#[derive(Debug)]
pub struct FileDownloaderUi {
    addr_str: String,
    connection_label: String,
}

impl View for FileDownloaderUi {
    type V = Seq<char>;

    closed spec fn view(&self) -> Seq<char> {
        self.addr_str@
    }
}

impl FileDownloaderUi {
    /// Starts with the address of the default sender and an empty label.
    pub fn new() -> (form: Self)
        ensures
            form@ == "58.229.94.229"@,
            form.label() == Seq::<char>::empty(),
    {
        FileDownloaderUi { addr_str: "58.229.94.229".to_owned(), connection_label: String::new() }
    }

    /// The text of the connection label.
    pub closed spec fn label(&self) -> Seq<char> {
        self.connection_label@
    }

    /// The text of the address field.
    pub fn address(&self) -> (text: &String)
        ensures
            text@ == self@,
    {
        &self.addr_str
    }

    /// Replaces the text of the address field.
    pub fn set_address(&mut self, text: String)
        ensures
            final(self)@ == text@,
            final(self).label() == old(self).label(),
    {
        self.addr_str = text;
    }

    /// The connection label.
    pub fn connection_label(&self) -> (text: &String)
        ensures
            text@ == self.label(),
    {
        &self.connection_label
    }

    /// What pressing "Download File" means: where the field holds an IPv4
    /// address, the endpoint to connect to, with the transfer port; else
    /// nothing, and the field then shows the error in place of what was typed.
    pub fn submit(&mut self) -> (target: Option<Endpoint>)
        ensures
            target is Some <==> parsed_ipv4(old(self)@) is Some,
            target matches Some(endpoint) ==> endpoint.ip@ == parsed_ipv4(old(self)@)->0
                && endpoint.port == PORT && final(self)@ == old(self)@,
            target is None ==> final(self)@ == address_error_text(),
            final(self).label() == old(self).label(),
    {
        match parse_ipv4(self.addr_str.as_str()) {
            Ok(ip) => Some(Endpoint { ip, port: PORT }),
            Err(error) => {
                self.addr_str = error.message();
                None
            },
        }
    }
}

impl Default for FileDownloaderUi {
    /// A form with an empty address field and an empty label.
    fn default() -> (form: Self)
        ensures
            form@ == Seq::<char>::empty(),
            form.label() == Seq::<char>::empty(),
    {
        FileDownloaderUi { addr_str: String::new(), connection_label: String::new() }
    }
}

} // verus!
