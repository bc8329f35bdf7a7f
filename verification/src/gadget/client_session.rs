use vstd::prelude::*;

verus! {

/// What the simulated phone remembers of the head unit's session: whether power updates
/// were asked for, the current the head unit offers, whether power updates were sent, and
/// the file transfer of the now-playing artwork.
#[derive(Debug, Clone, Copy, PartialEq, Eq, Structural)]
pub struct ClientSessionState {
    pub power_sub: bool,
    pub power_draw: Option<u16>,
    pub flushed_power: bool,
    pub artwork_tx: Option<u8>,
}

impl ClientSessionState {
    /// A session that has seen nothing yet.
    pub fn new() -> (r: ClientSessionState)
        ensures
            r == (ClientSessionState { power_sub: false, power_draw: None, flushed_power: false, artwork_tx: None }),
    {
        ClientSessionState { power_sub: false, power_draw: None, flushed_power: false, artwork_tx: None }
    }
}

/// A packet from the head unit, as far as the phone answers it. Asking for now-playing
/// updates comes with the two file transfer ids the phone reserved for the artwork.
#[derive(Debug, Clone, Copy, PartialEq, Eq, Structural)]
pub enum IncomingPacket {
    Identification,
    AuthenticationCertificate,
    AuthenticationResponse,
    AccessoryWiFiConfiguration,
    StartNowPlayingUpdates { first_tx: Option<u8>, next_tx: Option<u8> },
    StartPowerUpdates,
    PowerSourceUpdate { available_current: Option<u16> },
    StartCallStateUpdates,
    StartListUpdates,
    CarPlayStartSession,
    Other,
}

/// A now-playing media item: all fields blank (zero, empty text, false) with the given
/// artwork transfer, or only an artwork transfer.
#[derive(Debug, Clone, Copy, PartialEq, Eq, Structural)]
pub enum MediaItemModel {
    Blank { artwork_tx: Option<u8> },
    ArtworkOnly { artwork_tx: Option<u8> },
}

/// Playback attributes: stopped at position zero with shuffle and repeat off, empty texts
/// and the given speed, with the queue list marked unavailable when asked; or only the
/// queue list marked unavailable.
#[derive(Debug, Clone, Copy, PartialEq, Eq, Structural)]
pub enum PlaybackModel {
    Stopped { speed: u16, queue_list_unavailable: bool },
    QueueListUnavailable,
}

/// One now-playing update.
#[derive(Debug, Clone, Copy, PartialEq, Eq, Structural)]
pub struct NowPlayingUpdateModel {
    pub media_item: Option<MediaItemModel>,
    pub playback: Option<PlaybackModel>,
}

/// A message the phone sends to the head unit. The fixed ones carry fixed contents: a
/// challenge of twenty `0x42` bytes, the phone's UUID and name, the location data it asks
/// for (GPS fix, minimum GPS transit data and vehicle speed), a maximum current of 1000 mA,
/// that the battery will charge, an empty call state, and an empty recents list.
#[derive(Debug, Clone, Copy, PartialEq, Eq, Structural)]
pub enum OutgoingMessage {
    IdentificationAccepted,
    RequestAuthenticationCertificate,
    RequestAuthenticationChallengeResponse,
    AuthenticationSucceeded,
    DeviceUuidUpdate,
    DeviceInformationUpdate,
    StartLocationInformation,
    StopLocationInformation,
    NowPlaying(NowPlayingUpdateModel),
    /// An empty artwork file on this transfer.
    SendArtworkFile(u8),
    PowerUpdateMaximumCurrent,
    PowerUpdateWillCharge,
    CallStateUpdate,
    ListUpdate,
}

/// The updates that reset the head unit's now-playing view: a blank item with the first
/// artwork transfer and stopped playback, normal-speed stopped playback, a blank item, the
/// queue list marked unavailable, and the second artwork transfer.
pub open spec fn reset_sequence(first_tx: Option<u8>, next_tx: Option<u8>) -> Seq<NowPlayingUpdateModel> {
    seq![
        NowPlayingUpdateModel {
            media_item: Some(MediaItemModel::Blank { artwork_tx: first_tx }),
            playback: Some(PlaybackModel::Stopped { speed: 0, queue_list_unavailable: true }),
        },
        NowPlayingUpdateModel {
            media_item: None,
            playback: Some(PlaybackModel::Stopped { speed: 100, queue_list_unavailable: false }),
        },
        NowPlayingUpdateModel { media_item: Some(MediaItemModel::Blank { artwork_tx: None }), playback: None },
        NowPlayingUpdateModel { media_item: None, playback: Some(PlaybackModel::QueueListUnavailable) },
        NowPlayingUpdateModel { media_item: Some(MediaItemModel::ArtworkOnly { artwork_tx: next_tx }), playback: None },
    ]
}

/// The updates that reset the head unit's now-playing view.
pub fn now_playing_reset(first_tx: Option<u8>, next_tx: Option<u8>) -> (r: Vec<NowPlayingUpdateModel>)
    ensures
        r@ == reset_sequence(first_tx, next_tx),
{
    let mut r: Vec<NowPlayingUpdateModel> = Vec::new();
    r.push(
        NowPlayingUpdateModel {
            media_item: Some(MediaItemModel::Blank { artwork_tx: first_tx }),
            playback: Some(PlaybackModel::Stopped { speed: 0, queue_list_unavailable: true }),
        },
    );
    r.push(
        NowPlayingUpdateModel {
            media_item: None,
            playback: Some(PlaybackModel::Stopped { speed: 100, queue_list_unavailable: false }),
        },
    );
    r.push(NowPlayingUpdateModel { media_item: Some(MediaItemModel::Blank { artwork_tx: None }), playback: None });
    r.push(NowPlayingUpdateModel { media_item: None, playback: Some(PlaybackModel::QueueListUnavailable) });
    r.push(NowPlayingUpdateModel { media_item: Some(MediaItemModel::ArtworkOnly { artwork_tx: next_tx }), playback: None });
    assert(r@ =~= reset_sequence(first_tx, next_tx));
    r
}

/// The two power updates: the current the phone draws at most, then that its battery
/// will charge.
pub open spec fn power_updates() -> Seq<OutgoingMessage> {
    seq![OutgoingMessage::PowerUpdateMaximumCurrent, OutgoingMessage::PowerUpdateWillCharge]
}

/// How the phone answers a packet and what it remembers afterwards: identification is
/// accepted and a certificate asked for; a certificate is answered with a challenge; an
/// accepted authentication with the phone's identity and a location request; a request for
/// now-playing updates with the reset sequence and the two empty artwork files; power
/// requests and sources with the power updates once; call and list requests with empty
/// updates; anything else with nothing.
pub open spec fn respond_spec(s: ClientSessionState, p: IncomingPacket) -> (ClientSessionState, Seq<OutgoingMessage>) {
    match p {
        IncomingPacket::Identification => (
            s,
            seq![OutgoingMessage::IdentificationAccepted, OutgoingMessage::RequestAuthenticationCertificate],
        ),
        IncomingPacket::AuthenticationCertificate => (s, seq![OutgoingMessage::RequestAuthenticationChallengeResponse]),
        IncomingPacket::AuthenticationResponse => (
            s,
            seq![
                OutgoingMessage::AuthenticationSucceeded,
                OutgoingMessage::DeviceUuidUpdate,
                OutgoingMessage::DeviceInformationUpdate,
                OutgoingMessage::StartLocationInformation,
                OutgoingMessage::StopLocationInformation,
            ],
        ),
        IncomingPacket::StartNowPlayingUpdates { first_tx, next_tx } => {
            let files = match first_tx {
                Some(t) => seq![OutgoingMessage::SendArtworkFile(t)],
                None => Seq::empty(),
            } + match next_tx {
                Some(t) => seq![OutgoingMessage::SendArtworkFile(t)],
                None => Seq::empty(),
            };
            (
                ClientSessionState { artwork_tx: first_tx, ..s },
                reset_sequence(first_tx, next_tx).map_values(|u: NowPlayingUpdateModel| OutgoingMessage::NowPlaying(u))
                    + files,
            )
        },
        IncomingPacket::StartPowerUpdates => (
            ClientSessionState {
                power_sub: true,
                power_draw: if s.power_draw is None { Some(500u16) } else { s.power_draw },
                flushed_power: true,
                ..s
            },
            power_updates(),
        ),
        IncomingPacket::PowerSourceUpdate { available_current } => {
            let draw = Some(
                match available_current {
                    Some(c) => c,
                    None => 500u16,
                },
            );
            if s.power_sub && !s.flushed_power {
                (ClientSessionState { power_draw: draw, flushed_power: true, ..s }, power_updates())
            } else {
                (ClientSessionState { power_draw: draw, ..s }, Seq::empty())
            }
        },
        IncomingPacket::StartCallStateUpdates => (s, seq![OutgoingMessage::CallStateUpdate]),
        IncomingPacket::StartListUpdates => (s, seq![OutgoingMessage::ListUpdate]),
        _ => (s, Seq::empty()),
    }
}

/// How the phone answers a packet, and what it remembers afterwards.
pub fn respond_step(s: ClientSessionState, p: IncomingPacket) -> (r: (ClientSessionState, Vec<OutgoingMessage>))
    ensures
        r.0 == respond_spec(s, p).0,
        r.1@ == respond_spec(s, p).1,
{
    let mut st = s;
    let mut out: Vec<OutgoingMessage> = Vec::new();
    match p {
        IncomingPacket::Identification => {
            out.push(OutgoingMessage::IdentificationAccepted);
            out.push(OutgoingMessage::RequestAuthenticationCertificate);
        },
        IncomingPacket::AuthenticationCertificate => {
            out.push(OutgoingMessage::RequestAuthenticationChallengeResponse);
        },
        IncomingPacket::AuthenticationResponse => {
            out.push(OutgoingMessage::AuthenticationSucceeded);
            out.push(OutgoingMessage::DeviceUuidUpdate);
            out.push(OutgoingMessage::DeviceInformationUpdate);
            out.push(OutgoingMessage::StartLocationInformation);
            out.push(OutgoingMessage::StopLocationInformation);
        },
        IncomingPacket::StartNowPlayingUpdates { first_tx, next_tx } => {
            let updates = now_playing_reset(first_tx, next_tx);
            let mut i: usize = 0;
            while i < updates.len()
                invariant
                    i <= updates@.len(),
                    updates@ == reset_sequence(first_tx, next_tx),
                    out@ == reset_sequence(first_tx, next_tx).subrange(0, i as int).map_values(
                        |u: NowPlayingUpdateModel| OutgoingMessage::NowPlaying(u),
                    ),
                decreases updates@.len() - i,
            {
                out.push(OutgoingMessage::NowPlaying(updates[i]));
                i = i + 1;
                proof {
                    assert(out@ =~= reset_sequence(first_tx, next_tx).subrange(0, i as int).map_values(
                        |u: NowPlayingUpdateModel| OutgoingMessage::NowPlaying(u),
                    ));
                }
            }
            if let Some(t) = first_tx {
                out.push(OutgoingMessage::SendArtworkFile(t));
            }
            if let Some(t) = next_tx {
                out.push(OutgoingMessage::SendArtworkFile(t));
            }
            st.artwork_tx = first_tx;
        },
        IncomingPacket::StartPowerUpdates => {
            st.power_sub = true;
            if st.power_draw.is_none() {
                st.power_draw = Some(500);
            }
            out.push(OutgoingMessage::PowerUpdateMaximumCurrent);
            out.push(OutgoingMessage::PowerUpdateWillCharge);
            st.flushed_power = true;
        },
        IncomingPacket::PowerSourceUpdate { available_current } => {
            st.power_draw = Some(
                match available_current {
                    Some(c) => c,
                    None => 500,
                },
            );
            if st.power_sub && !st.flushed_power {
                st.flushed_power = true;
                out.push(OutgoingMessage::PowerUpdateMaximumCurrent);
                out.push(OutgoingMessage::PowerUpdateWillCharge);
            }
        },
        IncomingPacket::StartCallStateUpdates => {
            out.push(OutgoingMessage::CallStateUpdate);
        },
        IncomingPacket::StartListUpdates => {
            out.push(OutgoingMessage::ListUpdate);
        },
        _ => {},
    }
    (st, out)
}

/// A subscription to power updates, and the fact that they went out, stay for the rest of
/// the session; once they went out, a power source update is answered with nothing.
pub proof fn lemma_power_flags_persist(s: ClientSessionState, p: IncomingPacket)
    ensures
        s.power_sub ==> respond_spec(s, p).0.power_sub,
        s.flushed_power ==> respond_spec(s, p).0.flushed_power,
        s.flushed_power && p is PowerSourceUpdate ==> respond_spec(s, p).1.len() == 0,
{
}

/// The handshake answers: identification is accepted and a certificate asked for; a
/// certificate is answered with a challenge; an authentication response is answered first
/// with the success, then the phone's UUID and name and the start and stop of location
/// information. None of them changes what the session remembers.
pub proof fn lemma_handshake_answers(s: ClientSessionState)
    ensures
        respond_spec(s, IncomingPacket::Identification).0 == s,
        respond_spec(s, IncomingPacket::Identification).1.len() == 2,
        respond_spec(s, IncomingPacket::Identification).1[0] == OutgoingMessage::IdentificationAccepted,
        respond_spec(s, IncomingPacket::Identification).1[1] == OutgoingMessage::RequestAuthenticationCertificate,
        respond_spec(s, IncomingPacket::AuthenticationCertificate).0 == s,
        respond_spec(s, IncomingPacket::AuthenticationCertificate).1 == seq![
            OutgoingMessage::RequestAuthenticationChallengeResponse,
        ],
        respond_spec(s, IncomingPacket::AuthenticationResponse).0 == s,
        respond_spec(s, IncomingPacket::AuthenticationResponse).1.len() == 5,
        respond_spec(s, IncomingPacket::AuthenticationResponse).1[0] == OutgoingMessage::AuthenticationSucceeded,
        respond_spec(s, IncomingPacket::AuthenticationResponse).1[1] == OutgoingMessage::DeviceUuidUpdate,
        respond_spec(s, IncomingPacket::AuthenticationResponse).1[2] == OutgoingMessage::DeviceInformationUpdate,
        respond_spec(s, IncomingPacket::AuthenticationResponse).1[3] == OutgoingMessage::StartLocationInformation,
        respond_spec(s, IncomingPacket::AuthenticationResponse).1[4] == OutgoingMessage::StopLocationInformation,
{
}

} // verus!
