//! The messages of the protocol and their encoding.
//!
//! A message is one byte that tells its variant, followed by the variant's
//! fields in order. Texts and lists are encoded as the module
//! `serialization` describes. A message must fill its payload to the end.

use crate::frame::MAX_FRAME_LEN;
use crate::serialization::{
    failable_texts_bytes, lemma_parse_failable_texts, lemma_parse_text, parse_failable_texts,
    parse_text, push_text, push_texts, read_text, read_texts, text_bytes, texts_bytes, texts_of,
    FailableDeserialization,
};
use crate::wire::{push_all, push_be32, read_be32, LEN_BYTES};
use vstd::prelude::*;
use vstd::slice::slice_subrange;

verus! {

broadcast use crate::wire::lemma_be32_len;

/// First byte of `ClientRequest::Connect` and of `ServerPush::ServerInfo`.
pub const TAG_HELLO: u8 = 0;

/// First byte of a `Disconnect` message, in either direction.
pub const TAG_DISCONNECT: u8 = 1;

/// What the client sends on the control channel.
#[derive(Debug, Clone, PartialEq, Eq)]
pub enum ClientRequest {
    /// Opens the session for the user with this id.
    Connect(String),
    /// Ends the session.
    Disconnect,
}

/// What the server sends on the push channel.
#[derive(Debug, Clone, PartialEq, Eq)]
pub enum ServerPush {
    /// Describes the server.
    ServerInfo(ServerInfo),
    /// Ends the session.
    Disconnect,
}

/// Description of the server.
#[derive(Clone, Debug, PartialEq, Eq)]
pub struct ServerInfo {
    pub main_package_name: String,
    pub content_base_url: String,
    pub version: String,
    /// Absent where the field could not be decoded; the other fields are
    /// then still valid.
    pub external_components: FailableDeserialization<Vec<String>>,
}

/// A `ClientRequest` as a mathematical value.
pub enum ClientRequestView {
    Connect(Seq<char>),
    Disconnect,
}

/// A `ServerInfo` as a mathematical value.
pub struct ServerInfoView {
    pub main_package_name: Seq<char>,
    pub content_base_url: Seq<char>,
    pub version: Seq<char>,
    pub external_components: Option<Seq<Seq<char>>>,
}

/// A `ServerPush` as a mathematical value.
pub enum ServerPushView {
    ServerInfo(ServerInfoView),
    Disconnect,
}

impl View for ClientRequest {
    type V = ClientRequestView;

    open spec fn view(&self) -> ClientRequestView {
        match self {
            ClientRequest::Connect(user_id) => ClientRequestView::Connect(user_id@),
            ClientRequest::Disconnect => ClientRequestView::Disconnect,
        }
    }
}

impl View for ServerInfo {
    type V = ServerInfoView;

    open spec fn view(&self) -> ServerInfoView {
        ServerInfoView {
            main_package_name: self.main_package_name@,
            content_base_url: self.content_base_url@,
            version: self.version@,
            external_components: self.external_components@,
        }
    }
}

impl View for ServerPush {
    type V = ServerPushView;

    open spec fn view(&self) -> ServerPushView {
        match self {
            ServerPush::ServerInfo(info) => ServerPushView::ServerInfo(info@),
            ServerPush::Disconnect => ServerPushView::Disconnect,
        }
    }
}

/// The payload of a request.
pub open spec fn client_request_bytes(request: ClientRequestView) -> Seq<u8> {
    match request {
        ClientRequestView::Connect(user_id) => seq![TAG_HELLO] + text_bytes(user_id),
        ClientRequestView::Disconnect => seq![TAG_DISCONNECT],
    }
}

/// The request that a payload holds, if it holds one.
pub open spec fn decode_client_request(payload: Seq<u8>) -> Option<ClientRequestView> {
    if payload.len() == 0 {
        None
    } else if payload[0] == TAG_HELLO {
        match parse_text(payload.skip(1)) {
            Some((user_id, rest)) => if rest.len() == 0 {
                Some(ClientRequestView::Connect(user_id))
            } else {
                None
            },
            None => None,
        }
    } else if payload[0] == TAG_DISCONNECT && payload.len() == 1 {
        Some(ClientRequestView::Disconnect)
    } else {
        None
    }
}

/// The bytes of a server description: its three texts, then the list of
/// external components, which may be absent.
pub open spec fn server_info_bytes(info: ServerInfoView) -> Seq<u8> {
    text_bytes(info.main_package_name) + text_bytes(info.content_base_url) + text_bytes(
        info.version,
    ) + failable_texts_bytes(info.external_components)
}

/// Reads a server description off the front of `bytes`.
pub open spec fn parse_server_info(bytes: Seq<u8>) -> Option<(ServerInfoView, Seq<u8>)> {
    match parse_text(bytes) {
        Some((main_package_name, after_name)) => match parse_text(after_name) {
            Some((content_base_url, after_url)) => match parse_text(after_url) {
                Some((version, after_version)) => match parse_failable_texts(after_version) {
                    Some((external_components, rest)) => Some(
                        (
                            ServerInfoView {
                                main_package_name,
                                content_base_url,
                                version,
                                external_components,
                            },
                            rest,
                        ),
                    ),
                    None => None,
                },
                None => None,
            },
            None => None,
        },
        None => None,
    }
}

/// The payload of a push message.
pub open spec fn server_push_bytes(push: ServerPushView) -> Seq<u8> {
    match push {
        ServerPushView::ServerInfo(info) => seq![TAG_HELLO] + server_info_bytes(info),
        ServerPushView::Disconnect => seq![TAG_DISCONNECT],
    }
}

/// The push message that a payload holds, if it holds one.
pub open spec fn decode_server_push(payload: Seq<u8>) -> Option<ServerPushView> {
    if payload.len() == 0 {
        None
    } else if payload[0] == TAG_HELLO {
        match parse_server_info(payload.skip(1)) {
            Some((info, rest)) => if rest.len() == 0 {
                Some(ServerPushView::ServerInfo(info))
            } else {
                None
            },
            None => None,
        }
    } else if payload[0] == TAG_DISCONNECT && payload.len() == 1 {
        Some(ServerPushView::Disconnect)
    } else {
        None
    }
}

/// Decoding the payload of a request gives the request back.
pub proof fn lemma_client_request_roundtrip(request: ClientRequestView)
    requires
        client_request_bytes(request).len() <= u32::MAX,
    ensures
        decode_client_request(client_request_bytes(request)) == Some(request),
{
    match request {
        ClientRequestView::Connect(user_id) => {
            let payload = client_request_bytes(request);
            assert(payload.skip(1) =~= text_bytes(user_id) + Seq::<u8>::empty());
            lemma_parse_text(user_id, Seq::empty());
        },
        ClientRequestView::Disconnect => {},
    }
}

/// A server description that was written is read back, with what follows it.
pub proof fn lemma_parse_server_info(info: ServerInfoView, tail: Seq<u8>)
    requires
        server_info_bytes(info).len() <= u32::MAX,
    ensures
        parse_server_info(server_info_bytes(info) + tail) == Some((info, tail)),
{
    let name = text_bytes(info.main_package_name);
    let url = text_bytes(info.content_base_url);
    let version = text_bytes(info.version);
    let components = failable_texts_bytes(info.external_components);
    let bytes = server_info_bytes(info) + tail;
    assert(bytes =~= name + (url + (version + (components + tail))));
    lemma_parse_text(info.main_package_name, url + (version + (components + tail)));
    lemma_parse_text(info.content_base_url, version + (components + tail));
    lemma_parse_text(info.version, components + tail);
    lemma_parse_failable_texts(info.external_components, tail);
}

/// Decoding the payload of a push message gives the message back.
pub proof fn lemma_server_push_roundtrip(push: ServerPushView)
    requires
        server_push_bytes(push).len() <= u32::MAX,
    ensures
        decode_server_push(server_push_bytes(push)) == Some(push),
{
    match push {
        ServerPushView::ServerInfo(info) => {
            let payload = server_push_bytes(push);
            assert(payload.skip(1) =~= server_info_bytes(info) + Seq::<u8>::empty());
            lemma_parse_server_info(info, Seq::empty());
        },
        ServerPushView::Disconnect => {},
    }
}

/// Appends a list of texts that may be absent to `out`, unless `out` would
/// then hold more than a frame may carry.
fn push_failable_texts(out: &mut Vec<u8>, list: &FailableDeserialization<Vec<String>>) -> (ok: bool)
    requires
        old(out)@.len() <= MAX_FRAME_LEN,
    ensures
        ok <==> old(out)@.len() + failable_texts_bytes(list@).len() <= MAX_FRAME_LEN,
        ok ==> final(out)@ == old(out)@ + failable_texts_bytes(list@),
{
    let mut inner: Vec<u8> = Vec::new();
    match &list.0 {
        Some(texts) => {
            if !push_texts(&mut inner, texts) {
                return false;
            }
            assert(inner@ =~= texts_bytes(texts_of(texts@)));
        },
        None => {},
    }
    let room: usize = MAX_FRAME_LEN - out.len();
    if room < LEN_BYTES || room - LEN_BYTES < inner.len() {
        return false;
    }
    push_be32(out, inner.len() as u32);
    push_all(out, inner.as_slice());
    assert(out@ =~= old(out)@ + failable_texts_bytes(list@));
    true
}

/// Reads the list of texts that may be absent at position `at` of `buf`,
/// and the position after it.
fn read_failable_texts(buf: &[u8], at: usize) -> (found: Option<
    (FailableDeserialization<Vec<String>>, usize),
>)
    requires
        at <= buf@.len(),
    ensures
        match parse_failable_texts(buf@.skip(at as int)) {
            Some((list, rest)) => found matches Some((got, next)) && got@ == list && at <= next
                <= buf@.len() && rest == buf@.skip(next as int),
            None => found is None,
        },
{
    let ghost tail = buf@.skip(at as int);
    let left: usize = buf.len() - at;
    if left < LEN_BYTES {
        return None;
    }
    let len: u32 = read_be32(buf, at);
    if left - LEN_BYTES < len as usize {
        return None;
    }
    let start: usize = at + LEN_BYTES;
    let end: usize = start + len as usize;
    let inner = slice_subrange(buf, start, end);
    proof {
        assert(tail.subrange(LEN_BYTES as int, LEN_BYTES + len) =~= inner@);
        assert(tail.skip(LEN_BYTES + len) =~= buf@.skip(end as int));
        assert(inner@.skip(0) =~= inner@);
    }
    let list: Option<Vec<String>> = match read_texts(inner, 0) {
        Some((texts, next)) => if next == inner.len() {
            Some(texts)
        } else {
            None
        },
        None => None,
    };
    Some((FailableDeserialization(list), end))
}

impl ServerInfo {
    /// Appends the bytes of this description to `out`, unless `out` would
    /// then hold more than a frame may carry.
    fn push_to(&self, out: &mut Vec<u8>) -> (ok: bool)
        requires
            old(out)@.len() <= MAX_FRAME_LEN,
        ensures
            ok <==> old(out)@.len() + server_info_bytes(self@).len() <= MAX_FRAME_LEN,
            ok ==> final(out)@ == old(out)@ + server_info_bytes(self@),
    {
        if !push_text(out, self.main_package_name.as_str()) {
            return false;
        }
        if !push_text(out, self.content_base_url.as_str()) {
            return false;
        }
        if !push_text(out, self.version.as_str()) {
            return false;
        }
        if !push_failable_texts(out, &self.external_components) {
            return false;
        }
        assert(out@ =~= old(out)@ + server_info_bytes(self@));
        true
    }

    /// Reads the description at position `at` of `buf`, and the position
    /// after it.
    fn read_from(buf: &[u8], at: usize) -> (found: Option<(ServerInfo, usize)>)
        requires
            at <= buf@.len(),
        ensures
            match parse_server_info(buf@.skip(at as int)) {
                Some((info, rest)) => found matches Some((got, next)) && got@ == info && at
                    <= next <= buf@.len() && rest == buf@.skip(next as int),
                None => found is None,
            },
    {
        let (main_package_name, after_name) = match read_text(buf, at) {
            Some(found) => found,
            None => {
                return None;
            },
        };
        let (content_base_url, after_url) = match read_text(buf, after_name) {
            Some(found) => found,
            None => {
                return None;
            },
        };
        let (version, after_version) = match read_text(buf, after_url) {
            Some(found) => found,
            None => {
                return None;
            },
        };
        let (external_components, next) = match read_failable_texts(buf, after_version) {
            Some(found) => found,
            None => {
                return None;
            },
        };
        let info = ServerInfo { main_package_name, content_base_url, version, external_components };
        Some((info, next))
    }
}

impl ClientRequest {
    /// The payload of this request, or nothing where it is longer than a
    /// frame may carry.
    pub fn encode(&self) -> (payload: Option<Vec<u8>>)
        ensures
            payload is Some <==> client_request_bytes(self@).len() <= MAX_FRAME_LEN,
            payload matches Some(bytes) ==> bytes@ == client_request_bytes(self@),
    {
        let mut bytes: Vec<u8> = Vec::new();
        match self {
            ClientRequest::Connect(user_id) => {
                bytes.push(TAG_HELLO);
                if !push_text(&mut bytes, user_id.as_str()) {
                    return None;
                }
                assert(bytes@ =~= client_request_bytes(self@));
            },
            ClientRequest::Disconnect => {
                bytes.push(TAG_DISCONNECT);
                assert(bytes@ =~= client_request_bytes(self@));
            },
        }
        Some(bytes)
    }

    /// The request that `payload` holds, if it holds one.
    pub fn decode(payload: &[u8]) -> (request: Option<ClientRequest>)
        ensures
            match decode_client_request(payload@) {
                Some(expected) => request matches Some(got) && got@ == expected,
                None => request is None,
            },
    {
        if payload.len() == 0 {
            return None;
        }
        let tag: u8 = payload[0];
        if tag == TAG_HELLO {
            match read_text(payload, 1) {
                Some((user_id, next)) => if next == payload.len() {
                    Some(ClientRequest::Connect(user_id))
                } else {
                    None
                },
                None => None,
            }
        } else if tag == TAG_DISCONNECT && payload.len() == 1 {
            Some(ClientRequest::Disconnect)
        } else {
            None
        }
    }
}

impl ServerPush {
    /// The payload of this message, or nothing where it is longer than a
    /// frame may carry.
    pub fn encode(&self) -> (payload: Option<Vec<u8>>)
        ensures
            payload is Some <==> server_push_bytes(self@).len() <= MAX_FRAME_LEN,
            payload matches Some(bytes) ==> bytes@ == server_push_bytes(self@),
    {
        let mut bytes: Vec<u8> = Vec::new();
        match self {
            ServerPush::ServerInfo(info) => {
                bytes.push(TAG_HELLO);
                if !info.push_to(&mut bytes) {
                    return None;
                }
                assert(bytes@ =~= server_push_bytes(self@));
            },
            ServerPush::Disconnect => {
                bytes.push(TAG_DISCONNECT);
                assert(bytes@ =~= server_push_bytes(self@));
            },
        }
        Some(bytes)
    }

    /// The message that `payload` holds, if it holds one.
    pub fn decode(payload: &[u8]) -> (push: Option<ServerPush>)
        ensures
            match decode_server_push(payload@) {
                Some(expected) => push matches Some(got) && got@ == expected,
                None => push is None,
            },
    {
        if payload.len() == 0 {
            return None;
        }
        let tag: u8 = payload[0];
        if tag == TAG_HELLO {
            match ServerInfo::read_from(payload, 1) {
                Some((info, next)) => if next == payload.len() {
                    Some(ServerPush::ServerInfo(info))
                } else {
                    None
                },
                None => None,
            }
        } else if tag == TAG_DISCONNECT && payload.len() == 1 {
            Some(ServerPush::Disconnect)
        } else {
            None
        }
    }
}

} // verus!
