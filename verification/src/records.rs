//! Raw decoded records and their normalization into messages.
//!
//! A decoded archive record carries its text body in `content`; when that is
//! absent, a deterministic textual placeholder is synthesized from the
//! record's attachments.

use vstd::prelude::*;
use vstd::string::StringExecFns;
use crate::msg::Message;
use crate::strutil::{push_char, spec_join_sep};

verus! {

/// A kind of attachment that is referred to by a URI.
pub trait HasURI {
    /// The attachment's URI.
    spec fn spec_uri(&self) -> Seq<char>;

    /// The placeholder header for this kind of attachment.
    spec fn spec_header(&self) -> Seq<char>;

    fn uri<'a>(self: &'a Self) -> (r: &'a str)
        ensures
            r@ == self.spec_uri(),
    ;

    fn header<'a>(self: &'a Self) -> (r: &'static str)
        ensures
            r@ == self.spec_header(),
    ;
}

/// A photo attachment.
#[derive(Debug, Clone)]
pub struct Photo {
    pub uri: String,
    pub creation_timestamp: i64,
}

/// A GIF attachment.
#[derive(Debug, Clone)]
pub struct Gif {
    pub uri: String,
}

/// A video thumbnail.
#[derive(Debug, Clone)]
pub struct Thumbnail {
    pub uri: String,
}

/// A video attachment.
#[derive(Debug, Clone)]
pub struct Video {
    pub uri: String,
    pub creation_timestamp: i64,
    pub thumbnail: Thumbnail,
}

/// A reaction left on a message.
#[derive(Debug, Clone)]
pub struct Reaction {
    pub reaction: String,
    pub actor: String,
}

/// A shared link.
#[derive(Debug, Clone)]
pub struct Share {
    pub link: Option<String>,
}

/// A sticker attachment.
#[derive(Debug, Clone)]
pub struct Sticker {
    pub uri: String,
}

impl HasURI for Sticker {
    open spec fn spec_uri(&self) -> Seq<char> {
        self.uri@
    }

    open spec fn spec_header(&self) -> Seq<char> {
        "STICKER"@
    }

    fn uri<'a>(self: &'a Self) -> (r: &'a str) {
        self.uri.as_str()
    }

    fn header<'a>(self: &'a Self) -> (r: &'static str) {
        "STICKER"
    }
}

impl HasURI for Video {
    open spec fn spec_uri(&self) -> Seq<char> {
        self.uri@
    }

    open spec fn spec_header(&self) -> Seq<char> {
        "VIDEOS"@
    }

    fn uri<'a>(self: &'a Self) -> (r: &'a str) {
        self.uri.as_str()
    }

    fn header<'a>(self: &'a Self) -> (r: &'static str) {
        "VIDEOS"
    }
}

impl HasURI for Gif {
    open spec fn spec_uri(&self) -> Seq<char> {
        self.uri@
    }

    open spec fn spec_header(&self) -> Seq<char> {
        "GIFS"@
    }

    fn uri<'a>(self: &'a Self) -> (r: &'a str) {
        self.uri.as_str()
    }

    fn header<'a>(self: &'a Self) -> (r: &'static str) {
        "GIFS"
    }
}

impl HasURI for Photo {
    open spec fn spec_uri(&self) -> Seq<char> {
        self.uri@
    }

    open spec fn spec_header(&self) -> Seq<char> {
        "PHOTOS"@
    }

    fn uri<'a>(self: &'a Self) -> (r: &'a str) {
        self.uri.as_str()
    }

    fn header<'a>(self: &'a Self) -> (r: &'static str) {
        "PHOTOS"
    }
}

/// The placeholder text for a list of attachments of one kind: the kind's
/// header (or `NONE` when the list is empty), a colon and a space, then the
/// attachments' URIs separated by `-`.
pub open spec fn spec_uris<T: HasURI>(input: Seq<T>) -> Seq<char> {
    (if input.len() > 0 {
        input[0].spec_header()
    } else {
        "NONE"@
    }) + ": "@ + spec_join_sep(input.map_values(|v: T| v.spec_uri()), "-"@)
}

/// Renders the placeholder text for a list of attachments of one kind.
pub fn get_uris<T: HasURI>(input: &Vec<T>) -> (r: String)
    ensures
        r@ == spec_uris(input@),
{
    let ghost uris = input@.map_values(|v: T| v.spec_uri());
    let mut out = String::new();
    if input.len() > 0 {
        out.append(input[0].header());
    } else {
        out.append("NONE");
    }
    out.append(": ");
    let mut i: usize = 0;
    while i < input.len()
        invariant
            0 <= i <= input@.len(),
            uris == input@.map_values(|v: T| v.spec_uri()),
            out@ == (if input@.len() > 0 {
                input@[0].spec_header()
            } else {
                "NONE"@
            }) + ": "@ + spec_join_sep(uris.take(i as int), "-"@),
        decreases input@.len() - i,
    {
        if i > 0 {
            out.append("-");
        }
        out.append(input[i].uri());
        proof {
            let t = uris.take(i as int + 1);
            assert(t.drop_last() =~= uris.take(i as int));
            assert(t.last() == uris[i as int]);
            assert(out@ == (if input@.len() > 0 {
                input@[0].spec_header()
            } else {
                "NONE"@
            }) + ": "@ + spec_join_sep(t, "-"@));
        }
        i = i + 1;
    }
    proof {
        assert(uris.take(uris.len() as int) =~= uris);
    }
    out
}

/// One record as decoded from a repaired archive document.
#[derive(Debug, Clone)]
pub struct RawMessage {
    pub sender_name: String,
    pub timestamp_ms: i64,
    pub photos: Option<Vec<Photo>>,
    pub content: Option<String>,
    pub sticker: Option<Sticker>,
    pub gifs: Option<Vec<Gif>>,
    pub videos: Option<Vec<Video>>,
    pub reactions: Option<Vec<Reaction>>,
    pub share: Option<Share>,
    pub message_type: String,
}

/// The content a record normalizes to: its text body when present, else a
/// placeholder from the first kind of attachment present, in the order
/// photos, GIFs, videos, sticker, else a fixed placeholder.
pub open spec fn spec_content(m: RawMessage) -> Seq<char> {
    match m.content {
        Some(c) => c@,
        None => match m.photos {
            Some(ps) => spec_uris(ps@),
            None => match m.gifs {
                Some(gs) => spec_uris(gs@),
                None => match m.videos {
                    Some(vs) => spec_uris(vs@),
                    None => match m.sticker {
                        Some(st) => st.uri@,
                        None => "UNKOWN CONTENT TYPE"@,
                    },
                },
            },
        },
    }
}

/// Normalizes one decoded record into a message: author and timestamp are
/// copied, and the content is the record's text body or the synthesized
/// placeholder.
pub fn normalize_message(v: &RawMessage) -> (m: Message)
    ensures
        m.author@ == v.sender_name@,
        m.timestamp == v.timestamp_ms,
        m.content@ == spec_content(*v),
{
    let content: String = match &v.content {
        Some(content) => content.clone(),
        None => match &v.photos {
            Some(photos) => get_uris(photos),
            None => match &v.gifs {
                Some(gifs) => get_uris(gifs),
                None => match &v.videos {
                    Some(videos) => get_uris(videos),
                    None => match &v.sticker {
                        Some(sticker) => sticker.uri().to_owned(),
                        None => "UNKOWN CONTENT TYPE".to_owned(),
                    },
                },
            },
        },
    };
    Message { author: v.sender_name.clone(), timestamp: v.timestamp_ms, content }
}

} // verus!
