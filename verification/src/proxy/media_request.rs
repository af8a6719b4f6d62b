//! Requests for playlists and segments.

use vstd::prelude::*;
use crate::hlsvideo::MainPlaylist;
use crate::numbers::{parse_usize, unsigned_value};
use crate::params::{HlsParams, NumberTooLarge};
use crate::playlist::variant::opt_str;
use crate::text::{
    chars_of, same_text, split_on, split_text, texts_of, trim_leading, trim_white, without_leading,
    without_leading_white, without_trailing_white,
};
use crate::url_grammar::{fits, parsed, ParamsView};

verus! {

/// A request: what it asks for, and the path of the media file.
#[derive(Debug, Clone)]
pub struct MediaRequest {
    pub params: HlsParams,
    pub media_path: String,
}

/// A path that starts with a slash.
pub open spec fn with_slash(path: Seq<char>) -> Seq<char> {
    if path.len() > 0 && path[0] == '/' {
        path
    } else {
        seq!['/'] + path
    }
}

/// What a path asks for: it is read as an absolute path, and failing that as it is.
pub open spec fn asked_for(path: Seq<char>) -> Option<ParamsView> {
    if parsed(with_slash(path)) is Some {
        parsed(with_slash(path))
    } else {
        parsed(path)
    }
}

/// The path of a media file: below the media root, if there is one.
pub open spec fn media_path_of(video_url: Seq<char>, root: Seq<char>) -> Seq<char> {
    if root.len() == 0 {
        video_url
    } else if root.last() == '/' {
        root + without_leading(video_url, '/')
    } else {
        root + seq!['/'] + without_leading(video_url, '/')
    }
}

/// The path of a media file.
pub fn make_media_path(video_url: &str, root: &str) -> (path: String)
    ensures
        path@ == media_path_of(video_url@, root@),
{
    let chars: Vec<char> = chars_of(root);
    if chars.len() == 0 {
        return video_url.to_owned();
    }
    let rest: String = trim_leading(video_url, '/');
    let mut path: String = root.to_owned();
    if chars[chars.len() - 1] != '/' {
        path.push('/');
    }
    path.push_str(rest.as_str());
    assert(path@ =~= media_path_of(video_url@, root@));
    path
}

fn read_path(path: &str) -> (r: Result<Option<HlsParams>, NumberTooLarge>)
    ensures
        match asked_for(path@) {
            None => r matches Ok(None),
            Some(view) => if fits(view.url_type) {
                r matches Ok(Some(p)) && p@ == view
            } else {
                r is Err
            },
        },
{
    let chars: Vec<char> = chars_of(path);
    let clean: String = if chars.len() > 0 && chars[0] == '/' {
        path.to_owned()
    } else {
        let mut s: String = String::new();
        s.push('/');
        s.push_str(path);
        assert(s@ =~= seq!['/'] + path@);
        s
    };
    match HlsParams::try_parse(clean.as_str()) {
        Ok(None) => HlsParams::try_parse(path),
        found => found,
    }
}

/// The session of a request: the one that the query names, or else the one in the path.
pub open spec fn with_session(view: ParamsView, stream_id: Option<Seq<char>>) -> ParamsView {
    match stream_id {
        Some(id) => ParamsView { session_id: Some(id), ..view },
        None => view,
    }
}

/// Reads a request: `None` if it asks for nothing that is known, an error if one of its numbers
/// does not fit.
pub fn read_media_request(path: &str, stream_id: Option<&str>, media_root: &str) -> (r: Result<
    Option<MediaRequest>,
    NumberTooLarge,
>)
    ensures
        match asked_for(path@) {
            None => r matches Ok(None),
            Some(view) => if fits(view.url_type) {
                r matches Ok(Some(req)) && req.params@ == with_session(view, opt_str(stream_id))
                    && req.media_path@ == media_path_of(view.video_url, media_root@)
            } else {
                r is Err
            },
        },
{
    match read_path(path) {
        Err(e) => Err(e),
        Ok(None) => Ok(None),
        Ok(Some(params)) => {
            let mut params: HlsParams = params;
            if let Some(id) = stream_id {
                params.session_id = Some(id.to_owned());
            }
            let media_path: String = make_media_path(params.video_url.as_str(), media_root);
            Ok(Some(MediaRequest { params, media_path }))
        },
    }
}

/// The codecs in a query: a list with commas, without the white space around its items.
pub open spec fn codec_items(codecs: Option<Seq<char>>) -> Seq<Seq<char>> {
    match codecs {
        None => Seq::empty(),
        Some(s) => Seq::new(
            split_on(s, ',').len(),
            |i: int| without_trailing_white(without_leading_white(split_on(s, ',')[i])),
        ),
    }
}

/// The numbers among some texts, in order; what is no number that fits is passed over.
pub open spec fn numbers_in(parts: Seq<Seq<char>>) -> Seq<usize>
    decreases parts.len(),
{
    if parts.len() == 0 {
        Seq::empty()
    } else {
        let before = numbers_in(parts.drop_last());
        match unsigned_value(parts.last()) {
            Some(n) if n <= usize::MAX => before.push(n as usize),
            _ => before,
        }
    }
}

/// The tracks in a query: a list with commas.
pub open spec fn track_items(tracks: Option<Seq<char>>) -> Seq<usize> {
    match tracks {
        None => Seq::empty(),
        Some(s) => numbers_in(split_on(s, ',')),
    }
}

fn read_codecs(codecs: Option<&str>) -> (list: Vec<String>)
    ensures
        texts_of(list@) == codec_items(opt_str(codecs)),
{
    let mut list: Vec<String> = Vec::new();
    if let Some(s) = codecs {
        let parts: Vec<String> = split_text(s, ',');
        let mut i: usize = 0;
        while i < parts.len()
            invariant
                i <= parts@.len(),
                list@.len() == i,
                forall|k: int|
                    0 <= k < i ==> (#[trigger] list@[k])@ == without_trailing_white(
                        without_leading_white(parts@[k]@),
                    ),
            decreases parts.len() - i,
        {
            let item: String = trim_white(parts[i].as_str());
            list.push(item);
            i += 1;
        }
        proof {
            let views = split_on(s@, ',');
            assert(texts_of(parts@) == views);
            assert forall|k: int| 0 <= k < views.len() implies texts_of(list@)[k] == codec_items(
                opt_str(codecs),
            )[k] by {
                assert(views[k] == parts@[k]@);
            }
        }
    }
    assert(texts_of(list@) =~= codec_items(opt_str(codecs)));
    list
}

fn read_tracks(tracks: Option<&str>) -> (list: Vec<usize>)
    ensures
        list@ == track_items(opt_str(tracks)),
{
    let mut list: Vec<usize> = Vec::new();
    if let Some(s) = tracks {
        let parts: Vec<String> = split_text(s, ',');
        let ghost views = texts_of(parts@);
        let mut i: usize = 0;
        assert(list@ =~= numbers_in(views.take(0)));
        while i < parts.len()
            invariant
                i <= parts@.len(),
                views == texts_of(parts@),
                list@ == numbers_in(views.take(i as int)),
            decreases parts.len() - i,
        {
            assert(views.take(i + 1).drop_last() =~= views.take(i as int));
            if let Some(n) = parse_usize(parts[i].as_str()) {
                list.push(n);
            }
            i += 1;
        }
        assert(views.take(views.len() as int) =~= views);
    }
    list
}

/// Sets a main playlist up as the query asks: the codecs, the tracks, if any are named, and
/// whether the audio goes with the video.
pub fn apply_query(
    p: &mut MainPlaylist,
    codecs: Option<&str>,
    tracks: Option<&str>,
    interleave: Option<&str>,
)
    ensures
        texts_of(final(p).codecs@) == codec_items(opt_str(codecs)),
        final(p).tracks@ == if track_items(opt_str(tracks)).len() > 0 {
            track_items(opt_str(tracks)).to_set()
        } else {
            old(p).tracks@
        },
        final(p).interleave == (old(p).interleave || opt_str(interleave) == Some("true"@)),
        final(p).hls_params == old(p).hls_params,
        final(p).index == old(p).index,
        final(p).transcode == old(p).transcode,
{
    p.codecs = read_codecs(codecs);
    let list: Vec<usize> = read_tracks(tracks);
    if list.len() > 0 {
        p.enable_tracks(list.as_slice());
    }
    if let Some(s) = interleave {
        if same_text(s, "true") {
            p.interleave();
        }
    }
}

} // verus!
