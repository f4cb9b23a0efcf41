//! System Media Transport Controls, the media session of Windows.
use crate::media::status;
use crate::media::status::PlaybackStatus;
use vstd::prelude::*;

verus! {

/// What the system asks the player to do. Positions are in 100 ns ticks; a rate is the bit
/// pattern of a double-precision number.
#[derive(Debug, Clone, Copy, PartialEq, Eq, Structural)]
pub enum MediaSessionEvents {
    Play,
    Pause,
    Next,
    Previous,
    Stop,
    SetPosition { position: i64 },
    SetRate { rate: u64 },
}

/// The track on display.
#[derive(Debug, Clone)]
pub struct SmtcMetadata {
    pub title: Option<String>,
    pub artist: Option<String>,
    pub album: Option<String>,
    pub album_artist: Option<String>,
    pub art_url: Option<String>,
}

/// A button of the controls. The player answers only to the named ones.
#[derive(Debug, Clone, Copy, PartialEq, Eq, Structural)]
pub enum Button {
    Play,
    Pause,
    Next,
    Previous,
    Stop,
    Other,
}

/// One step of bringing a session up.
#[derive(Debug, Clone, Copy, PartialEq, Eq, Structural)]
pub enum SetupCall {
    CreatePlayer,
    /// The system controls are to reflect the session rather than the player.
    DisableCommandManager,
    TakeControls,
    EnableControls,
    EnablePlay,
    EnablePause,
    EnableNext,
    EnablePrevious,
    WatchButtons,
    WatchPosition,
    WatchRate,
}

/// The steps of bringing a session up, in order.
pub open spec fn setup_calls() -> Seq<SetupCall> {
    seq![
        SetupCall::CreatePlayer,
        SetupCall::DisableCommandManager,
        SetupCall::TakeControls,
        SetupCall::EnableControls,
        SetupCall::EnablePlay,
        SetupCall::EnablePause,
        SetupCall::EnableNext,
        SetupCall::EnablePrevious,
        SetupCall::WatchButtons,
        SetupCall::WatchPosition,
        SetupCall::WatchRate,
    ]
}

/// One step of displaying a track.
#[derive(Debug)]
pub enum DisplayCall {
    TakeUpdater,
    SetMusicType,
    TakeProperties,
    SetTitle(String),
    SetArtist(String),
    SetAlbumTitle(String),
    SetAlbumArtist(String),
    SetThumbnail(String),
    Update,
}

/// A [`DisplayCall`] with its text.
pub enum DisplayStep {
    TakeUpdater,
    SetMusicType,
    TakeProperties,
    SetTitle(Seq<char>),
    SetArtist(Seq<char>),
    SetAlbumTitle(Seq<char>),
    SetAlbumArtist(Seq<char>),
    SetThumbnail(Seq<char>),
    Update,
}

impl View for DisplayCall {
    type V = DisplayStep;

    open spec fn view(&self) -> DisplayStep {
        match self {
            DisplayCall::TakeUpdater => DisplayStep::TakeUpdater,
            DisplayCall::SetMusicType => DisplayStep::SetMusicType,
            DisplayCall::TakeProperties => DisplayStep::TakeProperties,
            DisplayCall::SetTitle(t) => DisplayStep::SetTitle(t@),
            DisplayCall::SetArtist(t) => DisplayStep::SetArtist(t@),
            DisplayCall::SetAlbumTitle(t) => DisplayStep::SetAlbumTitle(t@),
            DisplayCall::SetAlbumArtist(t) => DisplayStep::SetAlbumArtist(t@),
            DisplayCall::SetThumbnail(t) => DisplayStep::SetThumbnail(t@),
            DisplayCall::Update => DisplayStep::Update,
        }
    }
}

/// The text, or nothing where there is none.
pub open spec fn text_or_empty(text: Option<String>) -> Seq<char> {
    match text {
        Some(t) => t@,
        None => Seq::empty(),
    }
}

/// `field` of the track on display, or nothing where there is no track.
pub open spec fn shown(
    metadata: Option<SmtcMetadata>,
    field: spec_fn(SmtcMetadata) -> Option<String>,
) -> Seq<char> {
    match metadata {
        Some(m) => text_or_empty(field(m)),
        None => Seq::empty(),
    }
}

/// The thumbnail, where the track has one.
pub open spec fn thumbnail_steps(metadata: Option<SmtcMetadata>) -> Seq<DisplayStep> {
    match metadata {
        Some(SmtcMetadata { art_url: Some(url), .. }) => seq![DisplayStep::SetThumbnail(url@)],
        _ => Seq::empty(),
    }
}

/// The steps of displaying a track: every text field is set, so that what the track before had
/// does not stay; no track clears them.
pub open spec fn display_steps(metadata: Option<SmtcMetadata>) -> Seq<DisplayStep> {
    seq![
        DisplayStep::TakeUpdater,
        DisplayStep::SetMusicType,
        DisplayStep::TakeProperties,
        DisplayStep::SetTitle(shown(metadata, |m: SmtcMetadata| m.title)),
        DisplayStep::SetArtist(shown(metadata, |m: SmtcMetadata| m.artist)),
        DisplayStep::SetAlbumTitle(shown(metadata, |m: SmtcMetadata| m.album)),
        DisplayStep::SetAlbumArtist(shown(metadata, |m: SmtcMetadata| m.album_artist)),
    ] + thumbnail_steps(metadata) + seq![DisplayStep::Update]
}

/// What each call stands for.
pub open spec fn steps_of(calls: Seq<DisplayCall>) -> Seq<DisplayStep> {
    calls.map_values(|c: DisplayCall| c@)
}

/// One step of updating the timeline. Times are in 100 ns ticks.
#[derive(Debug, Clone, Copy, PartialEq, Eq, Structural)]
pub enum TimelineCall {
    Create,
    SetStartTime(i64),
    SetEndTime(i64),
    SetMinSeekTime(i64),
    SetMaxSeekTime(i64),
    SetPosition(i64),
    Update,
}

/// The steps of updating the timeline: it runs from zero to `duration`, all of it seekable.
pub open spec fn timeline_calls(position: i64, duration: i64) -> Seq<TimelineCall> {
    seq![
        TimelineCall::Create,
        TimelineCall::SetStartTime(0),
        TimelineCall::SetEndTime(duration),
        TimelineCall::SetMinSeekTime(0),
        TimelineCall::SetMaxSeekTime(duration),
        TimelineCall::SetPosition(position),
        TimelineCall::Update,
    ]
}

/// The event of a button; none for those that the player does not answer to.
pub open spec fn event_of(button: Button) -> Option<MediaSessionEvents> {
    match button {
        Button::Play => Some(MediaSessionEvents::Play),
        Button::Pause => Some(MediaSessionEvents::Pause),
        Button::Next => Some(MediaSessionEvents::Next),
        Button::Previous => Some(MediaSessionEvents::Previous),
        Button::Stop => Some(MediaSessionEvents::Stop),
        Button::Other => None,
    }
}

fn text_of(text: &Option<String>) -> (r: String)
    ensures
        r@ == text_or_empty(*text),
{
    match text {
        Some(t) => t.clone(),
        None => String::new(),
    }
}

/// A session, and the handler that its events go to.
pub struct MediaSession<E> {
    handler: Option<E>,
}

impl<E> View for MediaSession<E> {
    type V = Option<E>;

    closed spec fn view(&self) -> Option<E> {
        self.handler
    }
}

impl<E> MediaSession<E> {
    /// A session without a handler yet, and the calls that bring it up. It is up once all of
    /// them have been made; it fails with the first that fails.
    pub fn new() -> (r: (Self, Vec<SetupCall>))
        ensures
            r.0@ is None,
            r.1@ == setup_calls(),
    {
        let calls: Vec<SetupCall> = vec![
            SetupCall::CreatePlayer,
            SetupCall::DisableCommandManager,
            SetupCall::TakeControls,
            SetupCall::EnableControls,
            SetupCall::EnablePlay,
            SetupCall::EnablePause,
            SetupCall::EnableNext,
            SetupCall::EnablePrevious,
            SetupCall::WatchButtons,
            SetupCall::WatchPosition,
            SetupCall::WatchRate,
        ];
        assert(calls@ =~= setup_calls());
        (MediaSession { handler: None }, calls)
    }

    /// Replaces the handler.
    pub fn set_event_handler(&mut self, handler: Option<E>)
        ensures
            final(self)@ == handler,
    {
        self.handler = handler;
    }

    /// The handler to give `event` to. Without a handler the event is dropped.
    pub fn fire_event(&self, event: MediaSessionEvents) -> (r: Option<(&E, MediaSessionEvents)>)
        ensures
            match self@ {
                Some(handler) => r matches Some((h, e)) && *h == handler && e == event,
                None => r is None,
            },
    {
        match &self.handler {
            Some(handler) => Some((handler, event)),
            None => None,
        }
    }

    /// The handler to give the event of `button` to, if the player answers to it.
    pub fn button_pressed(&self, button: Button) -> (r: Option<(&E, MediaSessionEvents)>)
        ensures
            match (self@, event_of(button)) {
                (Some(handler), Some(event)) => r matches Some((h, e)) && *h == handler && e
                    == event,
                _ => r is None,
            },
    {
        let event: MediaSessionEvents = match button {
            Button::Play => MediaSessionEvents::Play,
            Button::Pause => MediaSessionEvents::Pause,
            Button::Next => MediaSessionEvents::Next,
            Button::Previous => MediaSessionEvents::Previous,
            Button::Stop => MediaSessionEvents::Stop,
            Button::Other => {
                return None;
            },
        };
        self.fire_event(event)
    }

    /// The calls that display a track; `None` clears the text that is displayed.
    pub fn set_metadata(&self, metadata: &Option<SmtcMetadata>) -> (r: Vec<DisplayCall>)
        ensures
            steps_of(r@) == display_steps(*metadata),
            shows_the_track(r@, *metadata),
    {
        let mut calls: Vec<DisplayCall> = Vec::new();
        calls.push(DisplayCall::TakeUpdater);
        calls.push(DisplayCall::SetMusicType);
        calls.push(DisplayCall::TakeProperties);
        match metadata {
            Some(m) => {
                calls.push(DisplayCall::SetTitle(text_of(&m.title)));
                calls.push(DisplayCall::SetArtist(text_of(&m.artist)));
                calls.push(DisplayCall::SetAlbumTitle(text_of(&m.album)));
                calls.push(DisplayCall::SetAlbumArtist(text_of(&m.album_artist)));
                if let Some(url) = &m.art_url {
                    calls.push(DisplayCall::SetThumbnail(url.clone()));
                }
            },
            None => {
                calls.push(DisplayCall::SetTitle(String::new()));
                calls.push(DisplayCall::SetArtist(String::new()));
                calls.push(DisplayCall::SetAlbumTitle(String::new()));
                calls.push(DisplayCall::SetAlbumArtist(String::new()));
            },
        }
        calls.push(DisplayCall::Update);
        assert(steps_of(calls@) =~= display_steps(*metadata));
        proof {
            display_shows_the_track(calls@, *metadata);
        }
        calls
    }

    /// The playback status of a name; an unknown name sets nothing.
    pub fn set_playback_status(&self, status: &String) -> (r: Result<PlaybackStatus, String>)
        ensures
            match status::status_named(status@) {
                Some(s) => r == Ok::<PlaybackStatus, String>(s),
                None => r matches Err(message) && message@ == "Unknown playback status: "@
                    + status@,
            },
    {
        match status::parse_status(status) {
            Some(s) => Ok(s),
            None => Err("Unknown playback status: ".to_owned().concat(status.as_str())),
        }
    }

    /// The playback rate to set, as it is given: a bit pattern.
    pub fn set_playback_rate(&self, rate: u64) -> (r: u64)
        ensures
            r == rate,
    {
        rate
    }

    /// The calls that update the timeline. Both values are in 100 ns ticks.
    pub fn set_timeline_properties(&self, position: i64, duration: i64) -> (r: Vec<TimelineCall>)
        ensures
            r@ == timeline_calls(position, duration),
    {
        let calls: Vec<TimelineCall> = vec![
            TimelineCall::Create,
            TimelineCall::SetStartTime(0),
            TimelineCall::SetEndTime(duration),
            TimelineCall::SetMinSeekTime(0),
            TimelineCall::SetMaxSeekTime(duration),
            TimelineCall::SetPosition(position),
            TimelineCall::Update,
        ];
        assert(calls@ =~= timeline_calls(position, duration));
        calls
    }
}

/// What is on display depends on the latest metadata alone in its text: every text field is set
/// on every update, and the update comes once, after all of them. A thumbnail is set only for a
/// track with art.
pub proof fn update_comes_last(metadata: Option<SmtcMetadata>)
    ensures
        ({
            let steps = display_steps(metadata);
            &&& exists|i: int| 0 <= i < steps.len() && #[trigger] steps[i] is SetTitle
            &&& exists|i: int| 0 <= i < steps.len() && #[trigger] steps[i] is SetArtist
            &&& exists|i: int| 0 <= i < steps.len() && #[trigger] steps[i] is SetAlbumTitle
            &&& exists|i: int| 0 <= i < steps.len() && #[trigger] steps[i] is SetAlbumArtist
            &&& steps.last() is Update
            &&& forall|i: int| 0 <= i < steps.len() - 1 ==> !(#[trigger] steps[i] is Update)
            &&& (exists|i: int| 0 <= i < steps.len() && #[trigger] steps[i] is SetThumbnail)
                <==> (metadata matches Some(m) && m.art_url is Some)
        }),
{
    let steps = display_steps(metadata);
    assert(steps[3] is SetTitle);
    assert(steps[4] is SetArtist);
    assert(steps[5] is SetAlbumTitle);
    assert(steps[6] is SetAlbumArtist);
    if metadata is Some && metadata->0.art_url is Some {
        assert(steps[7] is SetThumbnail);
    }
}

/// `text` is what the field holds, or nothing where there is no track or the field is not there.
pub open spec fn is_text_of(
    text: Seq<char>,
    metadata: Option<SmtcMetadata>,
    field: Option<String>,
) -> bool {
    if metadata is Some && field is Some {
        text == field->0@
    } else {
        text.len() == 0
    }
}

/// The calls set each text field of the display once, to what the track has for that field, and
/// the thumbnail once where the track has art, to its URL.
pub open spec fn shows_the_track(calls: Seq<DisplayCall>, metadata: Option<SmtcMetadata>) -> bool {
    let m = metadata->0;
    &&& forall|i: int|
        0 <= i < calls.len() ==> match #[trigger] calls[i] {
            DisplayCall::SetTitle(t) => is_text_of(t@, metadata, m.title),
            DisplayCall::SetArtist(t) => is_text_of(t@, metadata, m.artist),
            DisplayCall::SetAlbumTitle(t) => is_text_of(t@, metadata, m.album),
            DisplayCall::SetAlbumArtist(t) => is_text_of(t@, metadata, m.album_artist),
            DisplayCall::SetThumbnail(t) => metadata is Some && m.art_url is Some && t@
                == m.art_url->0@,
            _ => true,
        }
    &&& exists|i: int| 0 <= i < calls.len() && (#[trigger] calls[i]) is SetTitle
    &&& exists|i: int| 0 <= i < calls.len() && (#[trigger] calls[i]) is SetArtist
    &&& exists|i: int| 0 <= i < calls.len() && (#[trigger] calls[i]) is SetAlbumTitle
    &&& exists|i: int| 0 <= i < calls.len() && (#[trigger] calls[i]) is SetAlbumArtist
    &&& metadata is Some && m.art_url is Some ==> exists|i: int|
        0 <= i < calls.len() && (#[trigger] calls[i]) is SetThumbnail
    &&& forall|i: int, j: int|
        0 <= i < j < calls.len() ==> {
            &&& !((#[trigger] calls[i]) is SetTitle && (#[trigger] calls[j]) is SetTitle)
            &&& !(calls[i] is SetArtist && calls[j] is SetArtist)
            &&& !(calls[i] is SetAlbumTitle && calls[j] is SetAlbumTitle)
            &&& !(calls[i] is SetAlbumArtist && calls[j] is SetAlbumArtist)
            &&& !(calls[i] is SetThumbnail && calls[j] is SetThumbnail)
        }
}

/// The display shows the track: each text is that of its own field, and empty exactly where the
/// field is not there or is empty. The type is set to music, and one update comes at the end.
pub proof fn display_shows_the_track(calls: Seq<DisplayCall>, metadata: Option<SmtcMetadata>)
    requires
        steps_of(calls) == display_steps(metadata),
    ensures
        shows_the_track(calls, metadata),
        calls.len() >= 8,
        calls[0] is TakeUpdater,
        calls[1] is SetMusicType,
        calls[2] is TakeProperties,
        calls[calls.len() - 1] is Update,
        forall|i: int| 0 <= i < calls.len() - 1 ==> !((#[trigger] calls[i]) is Update),
{
    let steps = display_steps(metadata);
    assert(calls.len() == steps.len());
    assert forall|i: int| 0 <= i < calls.len() implies #[trigger] calls[i]@ == steps[i] by {
        assert(steps_of(calls)[i] == calls[i]@);
    }
    assert(calls[0]@ == steps[0] && calls[1]@ == steps[1] && calls[2]@ == steps[2]);
    assert(calls[3]@ == steps[3] && calls[4]@ == steps[4]);
    assert(calls[5]@ == steps[5] && calls[6]@ == steps[6]);
    assert(calls[3] is SetTitle && calls[4] is SetArtist);
    assert(calls[5] is SetAlbumTitle && calls[6] is SetAlbumArtist);
    assert(calls[7]@ == steps[7]);
    if metadata is Some && metadata->0.art_url is Some {
        assert(calls[7] is SetThumbnail);
        assert(calls[8]@ == steps[8]);
    }
}

/// The timeline runs from zero to the end of the track, all of it can be sought, and the position
/// is the one given. It is created first and updated once, at the end.
pub proof fn timeline_spans_the_track(position: i64, duration: i64)
    ensures
        ({
            let calls = timeline_calls(position, duration);
            &&& calls.len() == 7
            &&& calls[0] is Create
            &&& calls[6] is Update
            &&& calls.contains(TimelineCall::SetStartTime(0))
            &&& calls.contains(TimelineCall::SetEndTime(duration))
            &&& calls.contains(TimelineCall::SetMinSeekTime(0))
            &&& calls.contains(TimelineCall::SetMaxSeekTime(duration))
            &&& calls.contains(TimelineCall::SetPosition(position))
        }),
{
    let calls = timeline_calls(position, duration);
    assert(calls[1] == TimelineCall::SetStartTime(0));
    assert(calls[2] == TimelineCall::SetEndTime(duration));
    assert(calls[3] == TimelineCall::SetMinSeekTime(0));
    assert(calls[4] == TimelineCall::SetMaxSeekTime(duration));
    assert(calls[5] == TimelineCall::SetPosition(position));
}

/// Every step of bringing a session up is taken once. The player comes before its controls, the
/// controls before what is enabled on them, and all buttons are enabled before the session listens.
pub proof fn setup_takes_every_step(step: SetupCall)
    ensures
        ({
            let calls = setup_calls();
            &&& calls.contains(step)
            &&& forall|i: int, j: int|
                0 <= i < j < calls.len() ==> #[trigger] calls[i] != #[trigger] calls[j]
            &&& calls.len() == 11
            &&& calls[0] == SetupCall::CreatePlayer
            &&& calls[1] == SetupCall::DisableCommandManager
            &&& calls[2] == SetupCall::TakeControls
            &&& forall|i: int|
                0 <= i < calls.len() ==> ((#[trigger] calls[i] is WatchButtons || calls[i] is WatchPosition
                    || calls[i] is WatchRate) <==> i >= 8)
        }),
{
    let calls = setup_calls();
    assert(calls[0] == SetupCall::CreatePlayer && calls[1] == SetupCall::DisableCommandManager);
    assert(calls[2] == SetupCall::TakeControls && calls[3] == SetupCall::EnableControls);
    assert(calls[4] == SetupCall::EnablePlay && calls[5] == SetupCall::EnablePause);
    assert(calls[6] == SetupCall::EnableNext && calls[7] == SetupCall::EnablePrevious);
    assert(calls[8] == SetupCall::WatchButtons && calls[9] == SetupCall::WatchPosition);
    assert(calls[10] == SetupCall::WatchRate);
}

/// An event comes of the button of its name, and only of that; positions and rates come of no
/// button, and a button that the player does not answer to has no event.
pub proof fn events_come_of_their_buttons(button: Button)
    ensures
        match event_of(button) {
            Some(MediaSessionEvents::Play) => button is Play,
            Some(MediaSessionEvents::Pause) => button is Pause,
            Some(MediaSessionEvents::Next) => button is Next,
            Some(MediaSessionEvents::Previous) => button is Previous,
            Some(MediaSessionEvents::Stop) => button is Stop,
            Some(_) => false,
            None => button is Other,
        },
{
}

} // verus!
