//! What is changed in the talk between a client and a media server about playing something.

use vstd::prelude::*;
use crate::params::opt_text;
use crate::playlist::variant::opt_str;
use crate::text::{contains_text, holds_text, same_text};
use super::stream_id::{calculate_stream_id, stream_id_of};
use super::transcoding_url::{
    asked_in, base_url, make_base_url, proxied_url, rewrite_hls_url, transcoding_query, BadRequest,
};
use super::types::{
    DeviceProfile, MediaSource, PlaybackInfoRequest, PlaybackInfoResponse, TranscodingProfile,
};

verus! {

/// A profile for video over HLS in a container.
pub open spec fn is_hls_profile(p: TranscodingProfile, container: Seq<char>) -> bool {
    p.profile_type@ == "Video"@ && opt_text(p.protocol) == Some("hls"@) && opt_text(p.container)
        == Some(container)
}

fn is_text(s: &Option<String>, text: &str) -> (b: bool)
    ensures
        b == (opt_text(*s) == Some(text@)),
{
    match s {
        Some(t) => same_text(t.as_str(), text),
        None => false,
    }
}

/// Whether a profile is for video over HLS in a container.
pub fn profile_is(profile: &TranscodingProfile, container: &str) -> (b: bool)
    ensures
        b == is_hls_profile(*profile, container@),
{
    same_text(profile.profile_type.as_str(), "Video") && is_text(&profile.protocol, "hls")
        && is_text(&profile.container, container)
}

/// One of some profiles is for video over HLS in a container.
pub open spec fn offers(profiles: Seq<TranscodingProfile>, container: Seq<char>) -> bool {
    exists|i: int| 0 <= i < profiles.len() && is_hls_profile(#[trigger] profiles[i], container)
}

fn has_profile(profiles: &Vec<TranscodingProfile>, container: &str) -> (b: bool)
    ensures
        b == offers(profiles@, container@),
{
    let mut i: usize = 0;
    while i < profiles.len()
        invariant
            i <= profiles@.len(),
            forall|j: int| 0 <= j < i ==> !is_hls_profile(#[trigger] profiles@[j], container@),
        decreases profiles.len() - i,
    {
        if profile_is(&profiles[i], container) {
            return true;
        }
        i += 1;
    }
    false
}

/// The client is Safari, and not a browser that also says so.
pub open spec fn is_safari(user_agent: Option<Seq<char>>) -> bool {
    user_agent matches Some(ua) && holds_text(ua, "Safari"@) && !holds_text(ua, "Chrome"@)
        && !holds_text(ua, "Chromium"@)
}

/// A transcoding profile as it is asked for: where `ts` is offered and `mp4` is not, `mp4` in
/// place of `ts`.
pub open spec fn is_profile_changed(
    before: TranscodingProfile,
    after: TranscodingProfile,
    to_mp4: bool,
) -> bool {
    if to_mp4 && is_hls_profile(before, "ts"@) {
        &&& opt_text(after.container) == Some("mp4"@)
        &&& after == (TranscodingProfile { container: after.container, ..before })
    } else {
        after == before
    }
}

/// Profiles as they are asked for.
pub open spec fn are_profiles_changed(
    before: Seq<TranscodingProfile>,
    after: Seq<TranscodingProfile>,
) -> bool {
    let to_mp4 = offers(before, "ts"@) && !offers(before, "mp4"@);
    &&& after.len() == before.len()
    &&& forall|i: int|
        0 <= i < before.len() ==> is_profile_changed(before[i], #[trigger] after[i], to_mp4)
}

/// A device profile as it is asked for: with `mp4` in place of `ts`, and, for a Safari that is
/// to transcode, with nothing that plays as it is.
pub open spec fn is_device_changed(
    before: DeviceProfile,
    after: DeviceProfile,
    force_transcoding: bool,
) -> bool {
    &&& are_profiles_changed(before.transcoding_profiles@, after.transcoding_profiles@)
    &&& if force_transcoding {
        after.direct_play_profiles@.len() == 0
    } else {
        after.direct_play_profiles == before.direct_play_profiles
    }
    &&& after == (DeviceProfile {
        transcoding_profiles: after.transcoding_profiles,
        direct_play_profiles: after.direct_play_profiles,
        ..before
    })
}

fn is_safari_agent(user_agent: Option<&str>) -> (b: bool)
    ensures
        b == is_safari(
            match user_agent {
                Some(ua) => Some(ua@),
                None => None,
            },
        ),
{
    match user_agent {
        Some(ua) => contains_text(ua, "Safari") && !contains_text(ua, "Chrome")
            && !contains_text(ua, "Chromium"),
        None => false,
    }
}

fn change_profiles(profiles: &mut Vec<TranscodingProfile>)
    ensures
        are_profiles_changed(old(profiles)@, final(profiles)@),
{
    let to_mp4: bool = has_profile(profiles, "ts") && !has_profile(profiles, "mp4");
    if to_mp4 {
        let ghost before = profiles@;
        let mut i: usize = 0;
        while i < profiles.len()
            invariant
                i <= profiles@.len(),
                profiles@.len() == before.len(),
                forall|j: int|
                    0 <= j < i ==> is_profile_changed(before[j], #[trigger] profiles@[j], true),
                forall|j: int| i <= j < before.len() ==> #[trigger] profiles@[j] == before[j],
            decreases profiles.len() - i,
        {
            if profile_is(&profiles[i], "ts") {
                profiles[i].container = Some("mp4".to_owned());
            }
            i += 1;
        }
    }
}

/// Changes a request so that the media server offers HLS in `mp4`.
pub fn mutate_playback_info_request(
    req: &mut PlaybackInfoRequest,
    user_agent: Option<&str>,
    safari_force_transcoding: bool,
)
    ensures
        match old(req).device_profile {
            None => *final(req) == *old(req),
            Some(before) => {
                &&& final(req).device_profile matches Some(after) && is_device_changed(
                    before,
                    after,
                    safari_force_transcoding && is_safari(
                        match user_agent {
                            Some(ua) => Some(ua@),
                            None => None,
                        },
                    ),
                )
                &&& *final(req) == (PlaybackInfoRequest {
                    device_profile: final(req).device_profile,
                    ..*old(req)
                })
            },
        },
{
    let force: bool = is_safari_agent(user_agent) && safari_force_transcoding;
    if let Some(profile) = &mut req.device_profile {
        change_profiles(&mut profile.transcoding_profiles);
        if force {
            profile.direct_play_profiles = Vec::new();
        }
    }
}

/// Changing a request twice is changing it once: where `mp4` is offered nothing changes.
pub proof fn law_profiles_settle(
    before: Seq<TranscodingProfile>,
    once: Seq<TranscodingProfile>,
    twice: Seq<TranscodingProfile>,
)
    requires
        are_profiles_changed(before, once),
        are_profiles_changed(once, twice),
    ensures
        twice == once,
        offers(before, "ts"@) ==> offers(once, "mp4"@),
        !offers(once, "ts"@) || offers(before, "mp4"@),
{
    reveal_strlit("ts");
    reveal_strlit("mp4");
    assert("ts"@.len() != "mp4"@.len());
    if offers(before, "ts"@) && !offers(before, "mp4"@) {
        let i = choose|i: int|
            0 <= i < before.len() && is_hls_profile(#[trigger] before[i], "ts"@);
        assert(is_profile_changed(before[i], once[i], true));
        assert(is_hls_profile(once[i], "mp4"@));
        assert forall|j: int| 0 <= j < once.len() implies !is_hls_profile(
            #[trigger] once[j],
            "ts"@,
        ) by {
            assert(is_profile_changed(before[j], once[j], true));
        }
    } else {
        assert forall|j: int| 0 <= j < once.len() implies once[j] == before[j] by {
            assert(is_profile_changed(before[j], once[j], false));
        }
        assert(once =~= before);
    }
    assert(!(offers(once, "ts"@) && !offers(once, "mp4"@)));
    assert forall|j: int| 0 <= j < twice.len() implies twice[j] == once[j] by {
        assert(is_profile_changed(once[j], twice[j], false));
    }
    assert(twice =~= once);
}

/// The transcoding URL of a source can be rewritten, if it has one.
pub open spec fn transcoding_reads(s: MediaSource) -> bool {
    s.transcoding_url matches Some(url) ==> transcoding_query(url@) is Some
}

/// The direct stream of a source is an HLS stream.
pub open spec fn has_direct_hls(s: MediaSource) -> bool {
    s.direct_stream_url matches Some(url) && holds_text(url@, ".m3u8"@)
}

/// The direct stream URL of a source can be rewritten, if it is one of HLS.
pub open spec fn direct_reads(s: MediaSource) -> bool {
    has_direct_hls(s) ==> transcoding_query(s.direct_stream_url->Some_0@) is Some
}

/// A source with its transcoding URL rewritten.
pub open spec fn is_transcoding_changed(
    before: MediaSource,
    after: MediaSource,
    stream_id: Option<Seq<char>>,
) -> bool {
    match before.transcoding_url {
        Some(url) => {
            &&& opt_text(after.transcoding_url) == Some(
                proxied_url(
                    asked_in(transcoding_query(url@)->Some_0),
                    base_url(before.path@),
                    stream_id,
                    true,
                ),
            )
            &&& opt_text(after.transcoding_sub_protocol) == Some("hls"@)
            &&& opt_text(after.transcoding_container) == Some("mp4"@)
        },
        None => after.transcoding_url == before.transcoding_url && after.transcoding_sub_protocol
            == before.transcoding_sub_protocol && after.transcoding_container
            == before.transcoding_container,
    }
}

/// A source with its direct stream URL rewritten, if it is one of HLS.
pub open spec fn is_direct_changed(
    before: MediaSource,
    after: MediaSource,
    stream_id: Option<Seq<char>>,
) -> bool {
    if has_direct_hls(before) {
        opt_text(after.direct_stream_url) == Some(
            proxied_url(
                asked_in(transcoding_query(before.direct_stream_url->Some_0@)->Some_0),
                base_url(before.path@),
                stream_id,
                false,
            ),
        )
    } else {
        after.direct_stream_url == before.direct_stream_url
    }
}

/// A source with its URLs rewritten, and nothing else.
pub open spec fn is_source_changed(
    before: MediaSource,
    after: MediaSource,
    stream_id: Option<Seq<char>>,
) -> bool {
    &&& is_transcoding_changed(before, after, stream_id)
    &&& is_direct_changed(before, after, stream_id)
    &&& after == (MediaSource {
        transcoding_url: after.transcoding_url,
        transcoding_sub_protocol: after.transcoding_sub_protocol,
        transcoding_container: after.transcoding_container,
        direct_stream_url: after.direct_stream_url,
        ..before
    })
}

/// The URLs of a source can be rewritten.
pub open spec fn reads(s: MediaSource) -> bool {
    transcoding_reads(s) && direct_reads(s)
}

/// A source of which a URL could not be rewritten: where it was the direct stream URL, the
/// transcoding URL has been; nothing else changes.
pub open spec fn is_source_cut_short(
    before: MediaSource,
    after: MediaSource,
    stream_id: Option<Seq<char>>,
) -> bool {
    if transcoding_reads(before) {
        &&& is_transcoding_changed(before, after, stream_id)
        &&& after == (MediaSource {
            transcoding_url: after.transcoding_url,
            transcoding_sub_protocol: after.transcoding_sub_protocol,
            transcoding_container: after.transcoding_container,
            ..before
        })
    } else {
        after == before
    }
}

/// Rewrites the URLs of a source. Where the direct stream URL cannot be, the transcoding URL
/// has been.
#[verifier::rlimit(30)]
fn change_source(source: &mut MediaSource, stream_id: &Option<String>) -> (r: Result<
    (),
    BadRequest,
>)
    ensures
        r is Ok == reads(*old(source)),
        r is Ok ==> is_source_changed(*old(source), *final(source), opt_text(*stream_id)),
        r is Err ==> is_source_cut_short(*old(source), *final(source), opt_text(*stream_id)),
{
    let base: String = make_base_url(source.path.as_str());
    if let Some(url) = &source.transcoding_url {
        match rewrite_hls_url(url.as_str(), base.as_str(), stream_id, true) {
            Err(e) => {
                return Err(e);
            },
            Ok(new) => {
                source.transcoding_url = Some(new);
                source.transcoding_sub_protocol = Some("hls".to_owned());
                source.transcoding_container = Some("mp4".to_owned());
            },
        }
    }
    if let Some(url) = &source.direct_stream_url {
        if contains_text(url.as_str(), ".m3u8") {
            match rewrite_hls_url(url.as_str(), base.as_str(), stream_id, false) {
                Err(e) => {
                    return Err(e);
                },
                Ok(new) => {
                    source.direct_stream_url = Some(new);
                },
            }
        }
    }
    Ok(())
}

/// The id under which the streams of a response are known: that of its first source on the
/// device, or, without a source, that of the session.
pub open spec fn response_stream_id(
    resp: PlaybackInfoResponse,
    authorization: Option<Seq<char>>,
) -> Option<Seq<char>> {
    if resp.media_sources@.len() > 0 {
        stream_id_of(authorization, resp.media_sources@[0].id@)
    } else {
        opt_text(resp.play_session_id)
    }
}

/// One of some sources has a stream that was rewritten, or could be played directly.
pub open spec fn streams_any(sources: Seq<MediaSource>) -> bool {
    exists|i: int|
        0 <= i < sources.len() && ((#[trigger] sources[i]).transcoding_url is Some
            || sources[i].direct_stream_url is Some)
}

/// All sources of a response can be rewritten.
pub open spec fn all_read(sources: Seq<MediaSource>) -> bool {
    forall|i: int| 0 <= i < sources.len() ==> reads(#[trigger] sources[i])
}

/// The source at `i` of a response whose sources could not all be rewritten: those in front of
/// the first such are, and those behind it stay.
pub open spec fn is_source_left(
    before: Seq<MediaSource>,
    after: Seq<MediaSource>,
    i: int,
    stream_id: Option<Seq<char>>,
) -> bool {
    if !all_read(before.take(i)) {
        after[i] == before[i]
    } else if reads(before[i]) {
        is_source_changed(before[i], after[i], stream_id)
    } else {
        is_source_cut_short(before[i], after[i], stream_id)
    }
}

/// Changes a response so that its streams come from us.
pub fn mutate_playback_info_response(authorization: Option<&str>, resp: &mut PlaybackInfoResponse)
    -> (r: Result<(), BadRequest>)
    ensures
        r is Ok == all_read(old(resp).media_sources@),
        final(resp).media_sources@.len() == old(resp).media_sources@.len(),
        r is Ok ==> {
            let id = response_stream_id(*old(resp), opt_str(authorization));
            &&& forall|i: int|
                0 <= i < old(resp).media_sources@.len() ==> is_source_changed(
                    old(resp).media_sources@[i],
                    #[trigger] final(resp).media_sources@[i],
                    id,
                )
            &&& if streams_any(old(resp).media_sources@) && id is Some {
                opt_text(final(resp).play_session_id) == id
            } else {
                final(resp).play_session_id == old(resp).play_session_id
            }
        },
        r is Err ==> final(resp).play_session_id == old(resp).play_session_id,
        r is Err ==> forall|i: int|
            0 <= i < old(resp).media_sources@.len() ==> #[trigger] is_source_left(
                old(resp).media_sources@,
                final(resp).media_sources@,
                i,
                response_stream_id(*old(resp), opt_str(authorization)),
            ),
{
    let stream_id: Option<String> = if resp.media_sources.len() > 0 {
        calculate_stream_id(authorization, resp.media_sources[0].id.as_str())
    } else {
        resp.play_session_id.clone()
    };
    let ghost before = resp.media_sources@;
    let ghost session = resp.play_session_id;
    let mut update: bool = false;
    let mut i: usize = 0;
    while i < resp.media_sources.len()
        invariant
            i <= resp.media_sources@.len(),
            before == old(resp).media_sources@,
            session == old(resp).play_session_id,
            resp.media_sources@.len() == before.len(),
            resp.play_session_id == session,
            opt_text(stream_id) == response_stream_id(*old(resp), opt_str(authorization)),
            forall|j: int| 0 <= j < i ==> reads(#[trigger] before[j]),
            forall|j: int|
                0 <= j < i ==> is_source_changed(
                    before[j],
                    #[trigger] resp.media_sources@[j],
                    opt_text(stream_id),
                ),
            forall|j: int|
                i <= j < before.len() ==> #[trigger] resp.media_sources@[j] == before[j],
            update == (exists|j: int|
                0 <= j < i && ((#[trigger] before[j]).transcoding_url is Some
                    || before[j].direct_stream_url is Some)),
        decreases resp.media_sources.len() - i,
    {
        let streams: bool = resp.media_sources[i].transcoding_url.is_some()
            || resp.media_sources[i].direct_stream_url.is_some();
        assert(resp.media_sources@[i as int] == before[i as int]);
        match change_source(&mut resp.media_sources[i], &stream_id) {
            Err(e) => {
                assert(!reads(before[i as int]));
                assert forall|j: int| 0 <= j < before.len() implies #[trigger] is_source_left(
                    before,
                    resp.media_sources@,
                    j,
                    opt_text(stream_id),
                ) by {
                    if j <= i {
                        assert forall|k: int| 0 <= k < j implies reads(
                            #[trigger] before.take(j)[k],
                        ) by {
                            assert(before.take(j)[k] == before[k]);
                        }
                    } else {
                        assert(before.take(j)[i as int] == before[i as int]);
                    }
                }
                return Err(e);
            },
            Ok(()) => {},
        }
        if streams {
            update = true;
        }
        i += 1;
    }
    if update && stream_id.is_some() {
        resp.play_session_id = stream_id;
    }
    Ok(())
}

} // verus!
