use catplay::gadget::identity::flatten_wants;
use catplay::gadget::now_playing::NowPlayingSummary;

fn s(v: &str) -> Option<String> {
    Some(v.to_string())
}

#[test]
fn now_playing_text_leaves_out_missing_and_empty_fields() {
    let full = NowPlayingSummary::from_update(Some((s("Song"), s("Band"), s("Record"))));
    assert_eq!(full.to_string(), "Song - Band (Record)");
    let no_album = NowPlayingSummary::from_update(Some((s("Song"), s("Band"), s(""))));
    assert_eq!(no_album.to_string(), "Song - Band");
    let title_album = NowPlayingSummary::from_update(Some((s("Song"), None, s("Record"))));
    assert_eq!(title_album.to_string(), "Song (Record)");
    let only_title = NowPlayingSummary::from_update(Some((s("Song"), s(""), None)));
    assert_eq!(only_title.to_string(), "Song");
    let no_title = NowPlayingSummary::from_update(Some((None, s("Band"), s("Record"))));
    assert_eq!(no_title.to_string(), "Band (Record)");
    let only_artist = NowPlayingSummary::from_update(Some((s(""), s("Band"), None)));
    assert_eq!(only_artist.to_string(), "Band");
    let only_album = NowPlayingSummary::from_update(Some((None, None, s("Record"))));
    assert_eq!(only_album.to_string(), "Record");
}

#[test]
fn an_update_without_media_item_is_unknown() {
    let empty = NowPlayingSummary::from_update(None);
    assert!(empty.title.is_none() && empty.artists.is_none() && empty.album.is_none());
    assert_eq!(empty.to_string(), "<unknown>");
    let blank = NowPlayingSummary::from_update(Some((s(""), s(""), s(""))));
    assert_eq!(blank.to_string(), "<unknown>");
}

#[test]
fn wanted_message_ids_follow_the_feature_flags() {
    let always: &[u16] = &[0x5000, 0x5001];
    let gps: &[u16] = &[0xFFFA];
    let usb: &[u16] = &[0xAE00, 0xAE01, 0xAE03];
    let wifi: &[u16] = &[0x5702];
    assert_eq!(
        flatten_wants(&[(true, always), (false, gps), (true, usb), (true, wifi)]),
        vec![0x5000, 0x5001, 0xAE00, 0xAE01, 0xAE03, 0x5702]
    );
    assert_eq!(flatten_wants(&[(false, always), (false, gps)]), Vec::<u16>::new());
    assert_eq!(flatten_wants(&[]), Vec::<u16>::new());
}
