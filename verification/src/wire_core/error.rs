//! The failures that decoding a wire value or a message can report.

use vstd::prelude::*;

verus! {

/// Why a readable value is not a legal one.
#[derive(Clone, Copy, Debug, PartialEq, Eq, Structural)]
pub enum InvalidEncoding {
    /// A name-list holds a byte outside printable US-ASCII.
    NameListNonAscii { offset: usize },
    /// A name-list holds an empty name.
    NameListEmptyName { offset: usize },
}

/// Why a value could not be read.
#[derive(Clone, Copy, Debug, PartialEq, Eq, Structural)]
pub enum DecodeError {
    /// Fewer bytes are left than the value needs.
    Truncated { needed: usize, available: usize },
    /// A length or count claims more than can be there.
    LengthOverflow { claimed: u32, available: usize },
    /// The value was read and is not legal.
    InvalidEncoding(InvalidEncoding),
}

/// The fields of the messages, as the RFCs name them.
#[derive(Clone, Copy, Debug, PartialEq, Eq, Structural)]
pub enum Field {
    Cookie,
    KexAlgorithms,
    ServerHostKeyAlgorithms,
    EncryptionClientToServer,
    EncryptionServerToClient,
    MacClientToServer,
    MacServerToClient,
    CompressionClientToServer,
    CompressionServerToClient,
    LanguagesClientToServer,
    LanguagesServerToClient,
    FirstKexPacketFollows,
    Reserved,
    ReasonCode,
    Description,
    LanguageTag,
    Data,
    SequenceNumber,
    AlwaysDisplay,
    Message,
    ChannelType,
    SenderChannel,
    InitialWindowSize,
    MaximumPacketSize,
    RecipientChannel,
    ClientEphemeral,
    HostKey,
    ServerEphemeral,
    Signature,
    ServiceName,
    ExtensionCount,
    ExtensionName,
    ExtensionValue,
    /// A field of no known message.
    Other,
}

impl Field {
    /// The name of the field in diagnostics.
    pub open spec fn text(self) -> &'static str {
        match self {
            Field::Cookie => "cookie",
            Field::KexAlgorithms => "kex_algorithms",
            Field::ServerHostKeyAlgorithms => "server_host_key_algorithms",
            Field::EncryptionClientToServer => "encryption_algorithms_client_to_server",
            Field::EncryptionServerToClient => "encryption_algorithms_server_to_client",
            Field::MacClientToServer => "mac_algorithms_client_to_server",
            Field::MacServerToClient => "mac_algorithms_server_to_client",
            Field::CompressionClientToServer => "compression_algorithms_client_to_server",
            Field::CompressionServerToClient => "compression_algorithms_server_to_client",
            Field::LanguagesClientToServer => "languages_client_to_server",
            Field::LanguagesServerToClient => "languages_server_to_client",
            Field::FirstKexPacketFollows => "first_kex_packet_follows",
            Field::Reserved => "reserved",
            Field::ReasonCode => "reason_code",
            Field::Description => "description",
            Field::LanguageTag => "language_tag",
            Field::Data => "data",
            Field::SequenceNumber => "sequence_number",
            Field::AlwaysDisplay => "always_display",
            Field::Message => "message",
            Field::ChannelType => "channel_type",
            Field::SenderChannel => "sender_channel",
            Field::InitialWindowSize => "initial_window_size",
            Field::MaximumPacketSize => "maximum_packet_size",
            Field::RecipientChannel => "recipient_channel",
            Field::ClientEphemeral => "Q_C",
            Field::HostKey => "K_S",
            Field::ServerEphemeral => "Q_S",
            Field::Signature => "signature",
            Field::ServiceName => "service_name",
            Field::ExtensionCount => "nr-extensions",
            Field::ExtensionName => "extension-name",
            Field::ExtensionValue => "extension-value",
            Field::Other => "x",
        }
    }

    /// The name of the field in diagnostics.
    pub fn name(self) -> (r: &'static str)
        ensures
            r == self.text(),
    {
        match self {
            Field::Cookie => "cookie",
            Field::KexAlgorithms => "kex_algorithms",
            Field::ServerHostKeyAlgorithms => "server_host_key_algorithms",
            Field::EncryptionClientToServer => "encryption_algorithms_client_to_server",
            Field::EncryptionServerToClient => "encryption_algorithms_server_to_client",
            Field::MacClientToServer => "mac_algorithms_client_to_server",
            Field::MacServerToClient => "mac_algorithms_server_to_client",
            Field::CompressionClientToServer => "compression_algorithms_client_to_server",
            Field::CompressionServerToClient => "compression_algorithms_server_to_client",
            Field::LanguagesClientToServer => "languages_client_to_server",
            Field::LanguagesServerToClient => "languages_server_to_client",
            Field::FirstKexPacketFollows => "first_kex_packet_follows",
            Field::Reserved => "reserved",
            Field::ReasonCode => "reason_code",
            Field::Description => "description",
            Field::LanguageTag => "language_tag",
            Field::Data => "data",
            Field::SequenceNumber => "sequence_number",
            Field::AlwaysDisplay => "always_display",
            Field::Message => "message",
            Field::ChannelType => "channel_type",
            Field::SenderChannel => "sender_channel",
            Field::InitialWindowSize => "initial_window_size",
            Field::MaximumPacketSize => "maximum_packet_size",
            Field::RecipientChannel => "recipient_channel",
            Field::ClientEphemeral => "Q_C",
            Field::HostKey => "K_S",
            Field::ServerEphemeral => "Q_S",
            Field::Signature => "signature",
            Field::ServiceName => "service_name",
            Field::ExtensionCount => "nr-extensions",
            Field::ExtensionName => "extension-name",
            Field::ExtensionValue => "extension-value",
            Field::Other => "x",
        }
    }
}

/// Why a message could not be decoded.
#[derive(Clone, Copy, Debug, PartialEq, Eq, Structural)]
pub enum MessageError {
    /// The payload holds no message number.
    Empty,
    /// The payload is another message.
    UnexpectedMessage { expected: u8, found: u8 },
    /// A field of the message could not be read.
    Field { field: Field, offset: usize, error: DecodeError },
    /// Bytes follow the last field.
    TrailingBytes { count: usize },
}

} // verus!
