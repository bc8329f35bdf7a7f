use vstd::prelude::*;
use vstd::string::StringExecFns;

verus! {

/// Title, artists and album of what the phone is playing.
pub struct NowPlayingSummary {
    pub title: Option<String>,
    pub artists: Option<String>,
    pub album: Option<String>,
}

/// The text of a field that is present and not empty.
pub open spec fn shown(field: Option<String>) -> Option<Seq<char>> {
    match field {
        Some(s) => if s@.len() > 0 { Some(s@) } else { None },
        None => None,
    }
}

/// The one-line summary: `title - artists (album)`, leaving out what is missing or
/// empty, and `<unknown>` when nothing is there.
pub open spec fn summary_text(title: Option<Seq<char>>, artists: Option<Seq<char>>, album: Option<Seq<char>>) -> Seq<char> {
    match (title, artists, album) {
        (Some(t), Some(a), Some(b)) => t + " - "@ + a + " ("@ + b + ")"@,
        (Some(t), Some(a), None) => t + " - "@ + a,
        (Some(t), None, Some(b)) => t + " ("@ + b + ")"@,
        (Some(t), None, None) => t,
        (None, Some(a), Some(b)) => a + " ("@ + b + ")"@,
        (None, Some(a), None) => a,
        (None, None, Some(b)) => b,
        (None, None, None) => "<unknown>"@,
    }
}

/// The text of `field` when it is present and not empty.
fn shown_text(field: &Option<String>) -> (r: Option<&str>)
    ensures
        match r {
            Some(s) => shown(*field) == Some(s@),
            None => shown(*field) is None,
        },
{
    match field {
        Some(s) => {
            if s.as_str().is_empty() {
                None
            } else {
                Some(s.as_str())
            }
        },
        None => None,
    }
}

impl NowPlayingSummary {
    /// The summary of a now-playing update: the title, artist and album title of its media
    /// item, or nothing when the update carries no media item.
    pub fn from_update(media_item: Option<(Option<String>, Option<String>, Option<String>)>) -> (r: Self)
        ensures
            match media_item {
                Some((t, a, b)) => r.title == t && r.artists == a && r.album == b,
                None => r.title is None && r.artists is None && r.album is None,
            },
    {
        match media_item {
            Some((title, artists, album)) => NowPlayingSummary { title, artists, album },
            None => NowPlayingSummary { title: None, artists: None, album: None },
        }
    }

    /// The one-line text of the summary.
    pub fn to_string(&self) -> (r: String)
        ensures
            r@ == summary_text(shown(self.title), shown(self.artists), shown(self.album)),
    {
        let title = shown_text(&self.title);
        let artists = shown_text(&self.artists);
        let album = shown_text(&self.album);
        match (title, artists, album) {
            (Some(t), Some(a), Some(b)) => t.to_owned().concat(" - ").concat(a).concat(" (").concat(b).concat(")"),
            (Some(t), Some(a), None) => t.to_owned().concat(" - ").concat(a),
            (Some(t), None, Some(b)) => t.to_owned().concat(" (").concat(b).concat(")"),
            (Some(t), None, None) => t.to_owned(),
            (None, Some(a), Some(b)) => a.to_owned().concat(" (").concat(b).concat(")"),
            (None, Some(a), None) => a.to_owned(),
            (None, None, Some(b)) => b.to_owned(),
            (None, None, None) => "<unknown>".to_owned(),
        }
    }
}

} // verus!
