use super::buffer::Buffer;
use super::codec::{be16, parse_str, parse_u16, str_encoding, Codec};
use super::error::ErrorKind;
use vstd::prelude::*;

verus! {

/// What a peer sends to the server.
#[derive(Debug, Clone, PartialEq, Eq)]
pub enum ClientCommand {
    /// A keepalive that asks for nothing.
    Padding,
    /// Registers the peer under a display name.
    Connect { name: String },
    /// A text message for everybody.
    Message { message: String },
}

/// What the server sends to a peer.
#[derive(Debug, Clone, PartialEq, Eq)]
pub enum ServerCommand {
    /// A keepalive that tells nothing.
    Padding,
    /// A user registered under a display name.
    AddUser { user_id: u16, name: String },
    /// A user left.
    RemoveUser { user_id: u16 },
    /// A user sent a text message.
    Message { msg_id: u16, user_id: u16, message: String },
}

/// The mathematical content of a [`ClientCommand`].
pub enum ClientCommandView {
    Padding,
    Connect { name: Seq<char> },
    Message { message: Seq<char> },
}

/// The mathematical content of a [`ServerCommand`].
pub enum ServerCommandView {
    Padding,
    AddUser { user_id: u16, name: Seq<char> },
    RemoveUser { user_id: u16 },
    Message { msg_id: u16, user_id: u16, message: Seq<char> },
}

impl View for ClientCommand {
    type V = ClientCommandView;

    open spec fn view(&self) -> ClientCommandView {
        match self {
            ClientCommand::Padding => ClientCommandView::Padding,
            ClientCommand::Connect { name } => ClientCommandView::Connect { name: name@ },
            ClientCommand::Message { message } => ClientCommandView::Message { message: message@ },
        }
    }
}

impl View for ServerCommand {
    type V = ServerCommandView;

    open spec fn view(&self) -> ServerCommandView {
        match self {
            ServerCommand::Padding => ServerCommandView::Padding,
            ServerCommand::AddUser { user_id, name } => ServerCommandView::AddUser {
                user_id: *user_id,
                name: name@,
            },
            ServerCommand::RemoveUser { user_id } => ServerCommandView::RemoveUser {
                user_id: *user_id,
            },
            ServerCommand::Message { msg_id, user_id, message } => ServerCommandView::Message {
                msg_id: *msg_id,
                user_id: *user_id,
                message: message@,
            },
        }
    }
}

impl Codec for ClientCommand {
    /// A two-byte tag, most significant byte first, then the fields in order.
    open spec fn encoding(v: ClientCommandView) -> Seq<u8> {
        match v {
            ClientCommandView::Padding => be16(0),
            ClientCommandView::Connect { name } => be16(1) + str_encoding(name),
            ClientCommandView::Message { message } => be16(2) + str_encoding(message),
        }
    }

    /// The tag decides the variant; a tag above 2 is invalid data.
    open spec fn parse(bytes: Seq<u8>) -> (Result<ClientCommandView, ErrorKind>, nat) {
        match parse_u16(bytes).0 {
            Err(kind) => (Err(kind), parse_u16(bytes).1),
            Ok(tag) => if tag == 0 {
                (Ok(ClientCommandView::Padding), 2)
            } else if tag == 1 {
                match parse_str(bytes.skip(2)).0 {
                    Err(kind) => (Err(kind), 2 + parse_str(bytes.skip(2)).1),
                    Ok(name) => (
                        Ok(ClientCommandView::Connect { name }),
                        2 + parse_str(bytes.skip(2)).1,
                    ),
                }
            } else if tag == 2 {
                match parse_str(bytes.skip(2)).0 {
                    Err(kind) => (Err(kind), 2 + parse_str(bytes.skip(2)).1),
                    Ok(message) => (
                        Ok(ClientCommandView::Message { message }),
                        2 + parse_str(bytes.skip(2)).1,
                    ),
                }
            } else {
                (Err(ErrorKind::InvalidData), 2)
            },
        }
    }

    open spec fn representable(v: ClientCommandView) -> bool {
        match v {
            ClientCommandView::Padding => true,
            ClientCommandView::Connect { name } => String::representable(name),
            ClientCommandView::Message { message } => String::representable(message),
        }
    }

    proof fn lemma_round_trip(v: ClientCommandView, rest: Seq<u8>) {
        match v {
            ClientCommandView::Padding => {
                super::codec::lemma_parse_u16(0, rest);
            },
            ClientCommandView::Connect { name } => {
                let bytes = Self::encoding(v) + rest;
                assert(bytes =~= be16(1) + (str_encoding(name) + rest));
                super::codec::lemma_parse_u16(1, str_encoding(name) + rest);
                assert(bytes.skip(2) =~= str_encoding(name) + rest);
                super::codec::lemma_parse_str(name, rest);
            },
            ClientCommandView::Message { message } => {
                let bytes = Self::encoding(v) + rest;
                assert(bytes =~= be16(2) + (str_encoding(message) + rest));
                super::codec::lemma_parse_u16(2, str_encoding(message) + rest);
                assert(bytes.skip(2) =~= str_encoding(message) + rest);
                super::codec::lemma_parse_str(message, rest);
            },
        }
    }

    proof fn lemma_parse_bounds(bytes: Seq<u8>) {
        if bytes.len() >= 2 {
            super::codec::lemma_parse_str_bounds(bytes.skip(2));
        }
    }

    proof fn lemma_short_is_representable(v: ClientCommandView) {
    }

    fn code(&self, w: &mut Vec<u8>) {
        match self {
            ClientCommand::Padding => {
                0u16.code(w);
            },
            ClientCommand::Connect { name } => {
                1u16.code(w);
                name.code(w);
                assert(w@ =~= old(w)@ + (be16(1) + str_encoding(name@)));
            },
            ClientCommand::Message { message } => {
                2u16.code(w);
                message.code(w);
                assert(w@ =~= old(w)@ + (be16(2) + str_encoding(message@)));
            },
        }
    }

    fn decode(r: &mut Buffer) -> (res: Result<ClientCommand, ErrorKind>) {
        let tag = match u16::decode(r) {
            Ok(tag) => tag,
            Err(kind) => {
                return Err(kind);
            },
        };
        assert(r@.unread() =~= old(r)@.unread().skip(2));
        if tag == 0 {
            Ok(ClientCommand::Padding)
        } else if tag == 1 {
            match String::decode(r) {
                Ok(name) => Ok(ClientCommand::Connect { name }),
                Err(kind) => Err(kind),
            }
        } else if tag == 2 {
            match String::decode(r) {
                Ok(message) => Ok(ClientCommand::Message { message }),
                Err(kind) => Err(kind),
            }
        } else {
            Err(ErrorKind::InvalidData)
        }
    }

    fn coded_size(&self) -> (n: usize) {
        match self {
            ClientCommand::Padding => 0u16.coded_size(),
            ClientCommand::Connect { name } => 1u16.coded_size() + name.coded_size(),
            ClientCommand::Message { message } => 2u16.coded_size() + message.coded_size(),
        }
    }
}

impl Codec for ServerCommand {
    /// A two-byte tag, most significant byte first, then the fields in order.
    open spec fn encoding(v: ServerCommandView) -> Seq<u8> {
        match v {
            ServerCommandView::Padding => be16(0),
            ServerCommandView::AddUser { user_id, name } => be16(1) + be16(user_id) + str_encoding(
                name,
            ),
            ServerCommandView::RemoveUser { user_id } => be16(2) + be16(user_id),
            ServerCommandView::Message { msg_id, user_id, message } => be16(3) + be16(msg_id)
                + be16(user_id) + str_encoding(message),
        }
    }

    /// The tag decides the variant; a tag above 3 is invalid data.
    open spec fn parse(bytes: Seq<u8>) -> (Result<ServerCommandView, ErrorKind>, nat) {
        match parse_u16(bytes).0 {
            Err(kind) => (Err(kind), parse_u16(bytes).1),
            Ok(tag) => if tag == 0 {
                (Ok(ServerCommandView::Padding), 2)
            } else if tag == 1 {
                match parse_u16(bytes.skip(2)).0 {
                    Err(kind) => (Err(kind), 2 + parse_u16(bytes.skip(2)).1),
                    Ok(user_id) => match parse_str(bytes.skip(4)).0 {
                        Err(kind) => (Err(kind), 4 + parse_str(bytes.skip(4)).1),
                        Ok(name) => (
                            Ok(ServerCommandView::AddUser { user_id, name }),
                            4 + parse_str(bytes.skip(4)).1,
                        ),
                    },
                }
            } else if tag == 2 {
                match parse_u16(bytes.skip(2)).0 {
                    Err(kind) => (Err(kind), 2 + parse_u16(bytes.skip(2)).1),
                    Ok(user_id) => (Ok(ServerCommandView::RemoveUser { user_id }), 4),
                }
            } else if tag == 3 {
                match parse_u16(bytes.skip(2)).0 {
                    Err(kind) => (Err(kind), 2 + parse_u16(bytes.skip(2)).1),
                    Ok(msg_id) => match parse_u16(bytes.skip(4)).0 {
                        Err(kind) => (Err(kind), 4 + parse_u16(bytes.skip(4)).1),
                        Ok(user_id) => match parse_str(bytes.skip(6)).0 {
                            Err(kind) => (Err(kind), 6 + parse_str(bytes.skip(6)).1),
                            Ok(message) => (
                                Ok(ServerCommandView::Message { msg_id, user_id, message }),
                                6 + parse_str(bytes.skip(6)).1,
                            ),
                        },
                    },
                }
            } else {
                (Err(ErrorKind::InvalidData), 2)
            },
        }
    }

    open spec fn representable(v: ServerCommandView) -> bool {
        match v {
            ServerCommandView::Padding => true,
            ServerCommandView::AddUser { user_id, name } => String::representable(name),
            ServerCommandView::RemoveUser { user_id } => true,
            ServerCommandView::Message { msg_id, user_id, message } => String::representable(
                message,
            ),
        }
    }

    proof fn lemma_round_trip(v: ServerCommandView, rest: Seq<u8>) {
        match v {
            ServerCommandView::Padding => {
                super::codec::lemma_parse_u16(0, rest);
            },
            ServerCommandView::AddUser { user_id, name } => {
                lemma_add_user_round_trip(user_id, name, rest);
            },
            ServerCommandView::RemoveUser { user_id } => {
                lemma_remove_user_round_trip(user_id, rest);
            },
            ServerCommandView::Message { msg_id, user_id, message } => {
                lemma_message_round_trip(msg_id, user_id, message, rest);
            },
        }
    }

    proof fn lemma_parse_bounds(bytes: Seq<u8>) {
        if bytes.len() >= 4 {
            super::codec::lemma_parse_str_bounds(bytes.skip(4));
        }
        if bytes.len() >= 6 {
            super::codec::lemma_parse_str_bounds(bytes.skip(6));
        }
    }

    proof fn lemma_short_is_representable(v: ServerCommandView) {
    }

    fn code(&self, w: &mut Vec<u8>) {
        match self {
            ServerCommand::Padding => {
                0u16.code(w);
            },
            ServerCommand::AddUser { user_id, name } => {
                1u16.code(w);
                user_id.code(w);
                name.code(w);
                assert(w@ =~= old(w)@ + (be16(1) + be16(*user_id) + str_encoding(name@)));
            },
            ServerCommand::RemoveUser { user_id } => {
                2u16.code(w);
                user_id.code(w);
                assert(w@ =~= old(w)@ + (be16(2) + be16(*user_id)));
            },
            ServerCommand::Message { msg_id, user_id, message } => {
                3u16.code(w);
                msg_id.code(w);
                user_id.code(w);
                message.code(w);
                assert(w@ =~= old(w)@ + (be16(3) + be16(*msg_id) + be16(*user_id) + str_encoding(
                    message@,
                )));
            },
        }
    }

    fn decode(r: &mut Buffer) -> (res: Result<ServerCommand, ErrorKind>) {
        let ghost unread = old(r)@.unread();
        let tag = match u16::decode(r) {
            Ok(tag) => tag,
            Err(kind) => {
                return Err(kind);
            },
        };
        assert(r@.unread() =~= unread.skip(2));
        if tag == 0 {
            Ok(ServerCommand::Padding)
        } else if tag == 1 {
            let user_id = match u16::decode(r) {
                Ok(user_id) => user_id,
                Err(kind) => {
                    return Err(kind);
                },
            };
            assert(r@.unread() =~= unread.skip(4));
            match String::decode(r) {
                Ok(name) => Ok(ServerCommand::AddUser { user_id, name }),
                Err(kind) => Err(kind),
            }
        } else if tag == 2 {
            match u16::decode(r) {
                Ok(user_id) => Ok(ServerCommand::RemoveUser { user_id }),
                Err(kind) => Err(kind),
            }
        } else if tag == 3 {
            let msg_id = match u16::decode(r) {
                Ok(msg_id) => msg_id,
                Err(kind) => {
                    return Err(kind);
                },
            };
            assert(r@.unread() =~= unread.skip(4));
            let user_id = match u16::decode(r) {
                Ok(user_id) => user_id,
                Err(kind) => {
                    return Err(kind);
                },
            };
            assert(r@.unread() =~= unread.skip(6));
            match String::decode(r) {
                Ok(message) => Ok(ServerCommand::Message { msg_id, user_id, message }),
                Err(kind) => Err(kind),
            }
        } else {
            Err(ErrorKind::InvalidData)
        }
    }

    fn coded_size(&self) -> (n: usize) {
        match self {
            ServerCommand::Padding => 0u16.coded_size(),
            ServerCommand::AddUser { user_id, name } => 1u16.coded_size() + user_id.coded_size()
                + name.coded_size(),
            ServerCommand::RemoveUser { user_id } => 2u16.coded_size() + user_id.coded_size(),
            ServerCommand::Message { msg_id, user_id, message } => 3u16.coded_size()
                + msg_id.coded_size() + user_id.coded_size() + message.coded_size(),
        }
    }
}

/// The arrival of a user comes back from its own encoding.
proof fn lemma_add_user_round_trip(user_id: u16, name: Seq<char>, rest: Seq<u8>)
    requires
        String::representable(name),
    ensures
        ServerCommand::parse(
            ServerCommand::encoding(ServerCommandView::AddUser { user_id, name }) + rest,
        ) == (
            Ok::<ServerCommandView, ErrorKind>(ServerCommandView::AddUser { user_id, name }),
            ServerCommand::encoding(ServerCommandView::AddUser { user_id, name }).len(),
        ),
{
    let tail = str_encoding(name) + rest;
    let bytes = ServerCommand::encoding(ServerCommandView::AddUser { user_id, name }) + rest;
    assert(bytes =~= be16(1) + (be16(user_id) + tail));
    super::codec::lemma_parse_u16(1, be16(user_id) + tail);
    super::codec::lemma_skip_u16(1, be16(user_id) + tail);
    super::codec::lemma_parse_u16(user_id, tail);
    super::codec::lemma_skip_u16(user_id, tail);
    assert(bytes.skip(4) =~= bytes.skip(2).skip(2));
    super::codec::lemma_parse_str(name, rest);
}

/// The departure of a user comes back from its own encoding.
proof fn lemma_remove_user_round_trip(user_id: u16, rest: Seq<u8>)
    ensures
        ServerCommand::parse(
            ServerCommand::encoding(ServerCommandView::RemoveUser { user_id }) + rest,
        ) == (
            Ok::<ServerCommandView, ErrorKind>(ServerCommandView::RemoveUser { user_id }),
            ServerCommand::encoding(ServerCommandView::RemoveUser { user_id }).len(),
        ),
{
    let bytes = ServerCommand::encoding(ServerCommandView::RemoveUser { user_id }) + rest;
    assert(bytes =~= be16(2) + (be16(user_id) + rest));
    super::codec::lemma_parse_u16(2, be16(user_id) + rest);
    super::codec::lemma_skip_u16(2, be16(user_id) + rest);
    super::codec::lemma_parse_u16(user_id, rest);
}

/// A message comes back from its own encoding.
proof fn lemma_message_round_trip(msg_id: u16, user_id: u16, message: Seq<char>, rest: Seq<u8>)
    requires
        String::representable(message),
    ensures
        ServerCommand::parse(
            ServerCommand::encoding(ServerCommandView::Message { msg_id, user_id, message })
                + rest,
        ) == (
            Ok::<ServerCommandView, ErrorKind>(
                ServerCommandView::Message { msg_id, user_id, message },
            ),
            ServerCommand::encoding(ServerCommandView::Message { msg_id, user_id, message }).len(),
        ),
{
    let tail = str_encoding(message) + rest;
    let bytes = ServerCommand::encoding(ServerCommandView::Message { msg_id, user_id, message })
        + rest;
    assert(bytes =~= be16(3) + (be16(msg_id) + (be16(user_id) + tail)));
    super::codec::lemma_parse_u16(3, be16(msg_id) + (be16(user_id) + tail));
    super::codec::lemma_skip_u16(3, be16(msg_id) + (be16(user_id) + tail));
    super::codec::lemma_parse_u16(msg_id, be16(user_id) + tail);
    super::codec::lemma_skip_u16(msg_id, be16(user_id) + tail);
    assert(bytes.skip(4) =~= bytes.skip(2).skip(2));
    super::codec::lemma_parse_u16(user_id, tail);
    super::codec::lemma_skip_u16(user_id, tail);
    assert(bytes.skip(6) =~= bytes.skip(4).skip(2));
    super::codec::lemma_parse_str(message, rest);
}

/// A tag above 2 names no client command: whatever follows it, decoding
/// reports invalid data.
pub proof fn lemma_invalid_client_tag(bytes: Seq<u8>)
    requires
        bytes.len() >= 2,
        super::codec::be16_value(bytes[0], bytes[1]) > 2,
    ensures
        ClientCommand::parse(bytes).0 == Err::<ClientCommandView, ErrorKind>(
            ErrorKind::InvalidData,
        ),
{
}

/// A tag above 3 names no server command: whatever follows it, decoding
/// reports invalid data.
pub proof fn lemma_invalid_server_tag(bytes: Seq<u8>)
    requires
        bytes.len() >= 2,
        super::codec::be16_value(bytes[0], bytes[1]) > 3,
    ensures
        ServerCommand::parse(bytes).0 == Err::<ServerCommandView, ErrorKind>(
            ErrorKind::InvalidData,
        ),
{
}

/// A client command whose string field is wholly there but is not UTF-8 is
/// invalid data.
pub proof fn lemma_invalid_client_string(bytes: Seq<u8>)
    requires
        bytes.len() >= 2,
        1 <= super::codec::be16_value(bytes[0], bytes[1]) <= 2,
        super::codec::parse_bytes(bytes.skip(2)).0 matches Ok(b) && !vstd::utf8::valid_utf8(b),
    ensures
        ClientCommand::parse(bytes).0 == Err::<ClientCommandView, ErrorKind>(
            ErrorKind::InvalidData,
        ),
{
}

/// A server command whose string field is wholly there but is not UTF-8 is
/// invalid data. The string stands behind the tag and one identity in the
/// arrival of a user, behind the tag and two identities in a message.
pub proof fn lemma_invalid_server_string(bytes: Seq<u8>)
    requires
        bytes.len() >= 2,
        ({
            let tag = super::codec::be16_value(bytes[0], bytes[1]);
            let at: int = if tag == 1 {
                4
            } else {
                6
            };
            &&& (tag == 1 || tag == 3)
            &&& bytes.len() >= at
            &&& super::codec::parse_bytes(bytes.skip(at)).0 matches Ok(b)
                && !vstd::utf8::valid_utf8(b)
        }),
    ensures
        ServerCommand::parse(bytes).0 == Err::<ServerCommandView, ErrorKind>(
            ErrorKind::InvalidData,
        ),
{
}

} // verus!
