//! What the proxy does with its settings, with failures, and with what a URL asks for.

use vstd::prelude::*;
use crate::params::opt_text;
use crate::text::occurs_at;
use super::config::{is_listen_of, problem_of, Config, ConfigError, Listen, ListenAddr, RawAddr};
use super::forwarding::{socket_server, status_of, Failure};
use super::playbackinfo::{response_stream_id, streams_any};
use super::stream_id::stream_id_of;
use super::transcoding_url::{asked_by, asked_in, is_read_from};
use super::types::{HlsTranscodingParameters, PlaybackInfoResponse};

verus! {

/// A configuration is good if HTTP or HTTPS is enabled, and HTTPS only with a certificate and a
/// key.
pub proof fn law_good_configuration(c: Config)
    ensures
        problem_of(c) is None == ((c.server.enable_http || c.server.enable_https) && (
        c.server.enable_https ==> c.server.tls_cert@.len() > 0 && c.server.tls_key@.len() > 0)),
        problem_of(c) == Some(ConfigError::NothingEnabled) <==> !c.server.enable_http
            && !c.server.enable_https,
{
}

/// A bare port stands for that port on every address, of IPv4 and of IPv6.
pub proof fn law_port_is_open_everywhere(l: Listen, port: u16)
    requires
        is_listen_of(l, RawAddr::Port(port)),
    ensures
        l matches Listen::Known(addrs) && addrs@.len() == 2 && addrs@[0] == (ListenAddr::V4 {
            a: 0,
            b: 0,
            c: 0,
            d: 0,
            port,
        }) && addrs@[1] == (ListenAddr::V6 { bits: 0, port }),
{
}

/// A failure of the client is told as such, a missing file too; what the media server fails at is
/// a bad gateway, and all else a failure of the proxy.
pub proof fn law_failures_are_told(f: Failure)
    ensures
        f is DecodeRequest || f is DecodeResponse || f is Rewrite || f is UnknownUrl <==> status_of(f)
            == 400,
        f is NoFile <==> status_of(f) == 404,
        f is Send <==> status_of(f) == 502,
        status_of(f) == 400 || status_of(f) == 404 || status_of(f) == 502 || status_of(f) == 500,
{
}

/// A socket goes to the same place as other requests: only the scheme is another, `ws` in place of
/// `http`, and with that `wss` in place of `https`.
pub proof fn law_socket_goes_to_server(place: Seq<char>)
    ensures
        socket_server("http://"@ + place) == "ws://"@ + place,
        socket_server("https://"@ + place) == "wss://"@ + place,
        socket_server("ws://"@ + place) == "ws://"@ + place,
{
    reveal_strlit("http");
    reveal_strlit("http://");
    reveal_strlit("https://");
    reveal_strlit("ws");
    reveal_strlit("ws://");
    reveal_strlit("wss://");
    let plain = "http://"@ + place;
    let safe = "https://"@ + place;
    let socket = "ws://"@ + place;
    assert(plain.subrange(0, 4) =~= "http"@);
    assert(safe.subrange(0, 4) =~= "http"@);
    assert(occurs_at(plain, "http"@, 0));
    assert(occurs_at(safe, "http"@, 0));
    assert(!occurs_at(socket, "http"@, 0)) by {
        if occurs_at(socket, "http"@, 0) {
            assert(socket.subrange(0, 4)[0] == socket[0]);
            assert("http"@[0] == 'h');
            assert(socket[0] == 'w');
        }
    }
    assert("ws"@ + plain.skip(4) =~= "ws://"@ + place);
    assert("ws"@ + safe.skip(4) =~= "wss://"@ + place);
}

/// What is asked for is the same, whether it is taken from the parameters or from the query that
/// they were read from.
pub proof fn law_parameters_ask_alike(
    p: HlsTranscodingParameters,
    pairs: Seq<(Seq<char>, Seq<char>)>,
)
    requires
        is_read_from(p, pairs),
    ensures
        asked_by(p) == asked_in(pairs),
        asked_by(p).audio_track == opt_text(p.audio_stream_index),
        asked_by(p).subtitle_track == opt_text(p.subtitle_stream_index),
        asked_by(p).video_codec == opt_text(p.video_codec),
        asked_by(p).audio_codec == opt_text(p.audio_codec),
        asked_by(p).session == opt_text(p.play_session_id),
{
}

/// A response is known by its first media source, for the device that asked; without a source, by
/// its session.
pub proof fn law_response_is_known_by(
    resp: PlaybackInfoResponse,
    authorization: Option<Seq<char>>,
)
    ensures
        resp.media_sources@.len() > 0 ==> response_stream_id(resp, authorization) == stream_id_of(
            authorization,
            resp.media_sources@[0].id@,
        ),
        resp.media_sources@.len() == 0 ==> response_stream_id(resp, authorization) == opt_text(
            resp.play_session_id,
        ),
        !streams_any(resp.media_sources@) <==> forall|i: int|
            0 <= i < resp.media_sources@.len() ==> (
            #[trigger] resp.media_sources@[i]).transcoding_url is None
                && resp.media_sources@[i].direct_stream_url is None,
{
}

} // verus!
