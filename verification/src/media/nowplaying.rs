//! The Now Playing info center, the media session of macOS.
use crate::media::status;
use crate::media::status::PlaybackStatus;
use vstd::prelude::*;

verus! {

/// What the system asks the player to do. Positions, in seconds, and rates are bit patterns of
/// double-precision numbers.
#[derive(Debug, Clone, Copy, PartialEq, Eq, Structural)]
pub enum MediaSessionEvents {
    Play,
    Pause,
    Toggle,
    Next,
    Previous,
    SetPosition { position: u64 },
    SetRate { rate: u64 },
}

/// The track on display. Times, in seconds, and the rate are bit patterns of double-precision
/// numbers.
#[derive(Debug, Clone)]
pub struct NowPlayingMetadata {
    pub title: Option<String>,
    pub artist: Option<String>,
    pub album: Option<String>,
    pub duration: Option<u64>,
    pub elapsed: Option<u64>,
    pub rate: Option<u64>,
    /// Album-art URL string (or empty for none).
    pub art_url: Option<String>,
}

/// A remote command that the session listens to.
#[derive(Debug, Clone, Copy, PartialEq, Eq, Structural)]
pub enum Command {
    Play,
    Pause,
    TogglePlayPause,
    NextTrack,
    PreviousTrack,
    ChangePlaybackPosition,
}

/// The commands to enable and listen to, in order.
pub open spec fn command_list() -> Seq<Command> {
    seq![
        Command::Play,
        Command::Pause,
        Command::TogglePlayPause,
        Command::NextTrack,
        Command::PreviousTrack,
        Command::ChangePlaybackPosition,
    ]
}

/// The event of a command; `position` is the position that a position command asks for.
pub open spec fn event_of(command: Command, position: u64) -> MediaSessionEvents {
    match command {
        Command::Play => MediaSessionEvents::Play,
        Command::Pause => MediaSessionEvents::Pause,
        Command::TogglePlayPause => MediaSessionEvents::Toggle,
        Command::NextTrack => MediaSessionEvents::Next,
        Command::PreviousTrack => MediaSessionEvents::Previous,
        Command::ChangePlaybackPosition => MediaSessionEvents::SetPosition { position },
    }
}

/// One entry of the info dictionary. Artwork is given by its URL, and is left out where no
/// image can be had from it.
#[derive(Debug)]
pub enum InfoEntry {
    Title(String),
    Artist(String),
    AlbumTitle(String),
    PlaybackDuration(u64),
    ElapsedPlaybackTime(u64),
    PlaybackRate(u64),
    Artwork(String),
}

/// The entry for a field, where the track has it.
pub open spec fn entry_for<T>(field: Option<T>, entry: spec_fn(T) -> InfoEntry) -> Seq<InfoEntry> {
    match field {
        Some(value) => seq![entry(value)],
        None => Seq::empty(),
    }
}

/// The entry for the artwork, where the track has a URL that is not empty.
pub open spec fn artwork_entry(art_url: Option<String>) -> Seq<InfoEntry> {
    match art_url {
        Some(url) => if url@.len() == 0 {
            Seq::empty()
        } else {
            seq![InfoEntry::Artwork(url)]
        },
        None => Seq::empty(),
    }
}

/// The entries of the dictionary for a track, in the order in which they are put in.
pub open spec fn info_entries(m: NowPlayingMetadata) -> Seq<InfoEntry> {
    entry_for(m.title, |t: String| InfoEntry::Title(t)) + entry_for(
        m.artist,
        |t: String| InfoEntry::Artist(t),
    ) + entry_for(m.album, |t: String| InfoEntry::AlbumTitle(t)) + entry_for(
        m.duration,
        |v: u64| InfoEntry::PlaybackDuration(v),
    ) + entry_for(m.elapsed, |v: u64| InfoEntry::ElapsedPlaybackTime(v)) + entry_for(
        m.rate,
        |v: u64| InfoEntry::PlaybackRate(v),
    ) + artwork_entry(m.art_url)
}

/// A session, and the handler that its events go to.
pub struct MediaSession<E> {
    handler: Option<E>,
}

impl<E> View for MediaSession<E> {
    type V = Option<E>;

    closed spec fn view(&self) -> Option<E> {
        self.handler
    }
}

impl<E> MediaSession<E> {
    /// A session without a handler, and the commands to attach it to.
    pub fn new() -> (r: (Self, Vec<Command>))
        ensures
            r.0@ is None,
            r.1@ == command_list(),
    {
        let commands: Vec<Command> = vec![
            Command::Play,
            Command::Pause,
            Command::TogglePlayPause,
            Command::NextTrack,
            Command::PreviousTrack,
            Command::ChangePlaybackPosition,
        ];
        assert(commands@ =~= command_list());
        (MediaSession { handler: None }, commands)
    }

    /// Replaces the handler.
    pub fn set_event_handler(&mut self, handler: Option<E>)
        ensures
            final(self)@ == handler,
    {
        self.handler = handler;
    }

    /// The handler to give `event` to. Without a handler the event is dropped.
    pub fn fire_event(&self, event: MediaSessionEvents) -> (r: Option<(&E, MediaSessionEvents)>)
        ensures
            match self@ {
                Some(handler) => r matches Some((h, e)) && *h == handler && e == event,
                None => r is None,
            },
    {
        match &self.handler {
            Some(handler) => Some((handler, event)),
            None => None,
        }
    }

    /// The handler to give the event of `command` to.
    pub fn command_received(&self, command: Command, position: u64) -> (r: Option<
        (&E, MediaSessionEvents),
    >)
        ensures
            match self@ {
                Some(handler) => r matches Some((h, e)) && *h == handler && e == event_of(
                    command,
                    position,
                ),
                None => r is None,
            },
    {
        let event: MediaSessionEvents = match command {
            Command::Play => MediaSessionEvents::Play,
            Command::Pause => MediaSessionEvents::Pause,
            Command::TogglePlayPause => MediaSessionEvents::Toggle,
            Command::NextTrack => MediaSessionEvents::Next,
            Command::PreviousTrack => MediaSessionEvents::Previous,
            Command::ChangePlaybackPosition => MediaSessionEvents::SetPosition { position },
        };
        self.fire_event(event)
    }

    /// The whole Now Playing info dictionary for a track. `None` clears it.
    pub fn set_metadata(&self, metadata: &Option<NowPlayingMetadata>) -> (r: Option<Vec<InfoEntry>>)
        ensures
            match metadata {
                Some(m) => r matches Some(entries) && entries@ == info_entries(*m)
                    && shows_the_track(entries@, *m),
                None => r is None,
            },
    {
        let m: &NowPlayingMetadata = match metadata {
            Some(m) => m,
            None => {
                return None;
            },
        };
        let mut entries: Vec<InfoEntry> = Vec::new();
        if let Some(title) = &m.title {
            entries.push(InfoEntry::Title(title.clone()));
        }
        let ghost to_title = entry_for(m.title, |t: String| InfoEntry::Title(t));
        assert(entries@ =~= to_title);
        if let Some(artist) = &m.artist {
            entries.push(InfoEntry::Artist(artist.clone()));
        }
        let ghost to_artist = to_title + entry_for(m.artist, |t: String| InfoEntry::Artist(t));
        assert(entries@ =~= to_artist);
        if let Some(album) = &m.album {
            entries.push(InfoEntry::AlbumTitle(album.clone()));
        }
        let ghost to_album = to_artist + entry_for(m.album, |t: String| InfoEntry::AlbumTitle(t));
        assert(entries@ =~= to_album);
        if let Some(duration) = m.duration {
            entries.push(InfoEntry::PlaybackDuration(duration));
        }
        let ghost to_duration = to_album + entry_for(m.duration, |v: u64| InfoEntry::PlaybackDuration(v));
        assert(entries@ =~= to_duration);
        if let Some(elapsed) = m.elapsed {
            entries.push(InfoEntry::ElapsedPlaybackTime(elapsed));
        }
        let ghost to_elapsed = to_duration + entry_for(m.elapsed, |v: u64| InfoEntry::ElapsedPlaybackTime(v));
        assert(entries@ =~= to_elapsed);
        if let Some(rate) = m.rate {
            entries.push(InfoEntry::PlaybackRate(rate));
        }
        let ghost to_rate = to_elapsed + entry_for(m.rate, |v: u64| InfoEntry::PlaybackRate(v));
        assert(entries@ =~= to_rate);
        if let Some(art_url) = &m.art_url {
            if !art_url.as_str().is_empty() {
                entries.push(InfoEntry::Artwork(art_url.clone()));
            }
        }
        assert(entries@ =~= to_rate + artwork_entry(m.art_url));
        proof {
            info_shows_the_track(*m);
        }
        Some(entries)
    }

    /// The playback state of a name, used for Now Playing visibility.
    pub fn set_playback_state(&self, state: &String) -> (r: Result<PlaybackStatus, String>)
        ensures
            match status::status_named(state@) {
                Some(s) => r == Ok::<PlaybackStatus, String>(s),
                None => r matches Err(message) && message@ == "Unknown playback state: "@ + state@,
            },
    {
        match status::parse_status(state) {
            Some(s) => Ok(s),
            None => Err("Unknown playback state: ".to_owned().concat(state.as_str())),
        }
    }
}

/// `entries` hold what the track has: an entry for each field that is there, with its value, the
/// artwork where its URL is not empty, and nothing else. No field has two entries.
pub open spec fn shows_the_track(entries: Seq<InfoEntry>, m: NowPlayingMetadata) -> bool {
    &&& forall|i: int|
        0 <= i < entries.len() ==> match #[trigger] entries[i] {
            InfoEntry::Title(t) => m.title == Some(t),
            InfoEntry::Artist(t) => m.artist == Some(t),
            InfoEntry::AlbumTitle(t) => m.album == Some(t),
            InfoEntry::PlaybackDuration(v) => m.duration == Some(v),
            InfoEntry::ElapsedPlaybackTime(v) => m.elapsed == Some(v),
            InfoEntry::PlaybackRate(v) => m.rate == Some(v),
            InfoEntry::Artwork(t) => m.art_url == Some(t) && t@.len() > 0,
        }
    &&& m.title is Some ==> entries.contains(InfoEntry::Title(m.title->0))
    &&& m.artist is Some ==> entries.contains(InfoEntry::Artist(m.artist->0))
    &&& m.album is Some ==> entries.contains(InfoEntry::AlbumTitle(m.album->0))
    &&& m.duration is Some ==> entries.contains(InfoEntry::PlaybackDuration(m.duration->0))
    &&& m.elapsed is Some ==> entries.contains(InfoEntry::ElapsedPlaybackTime(m.elapsed->0))
    &&& m.rate is Some ==> entries.contains(InfoEntry::PlaybackRate(m.rate->0))
    &&& m.art_url is Some && m.art_url->0@.len() > 0 ==> entries.contains(
        InfoEntry::Artwork(m.art_url->0),
    )
    &&& forall|i: int, j: int|
        0 <= i < j < entries.len() ==> #[trigger] entries[i] != #[trigger] entries[j]
}

/// The entry is that of a field which the track has.
spec fn is_entry_of(entry: InfoEntry, m: NowPlayingMetadata) -> bool {
    match entry {
        InfoEntry::Title(t) => m.title == Some(t),
        InfoEntry::Artist(t) => m.artist == Some(t),
        InfoEntry::AlbumTitle(t) => m.album == Some(t),
        InfoEntry::PlaybackDuration(v) => m.duration == Some(v),
        InfoEntry::ElapsedPlaybackTime(v) => m.elapsed == Some(v),
        InfoEntry::PlaybackRate(v) => m.rate == Some(v),
        InfoEntry::Artwork(t) => m.art_url == Some(t) && t@.len() > 0,
    }
}

/// The place of the entry in the order in which they are put in.
spec fn rank(entry: InfoEntry) -> int {
    match entry {
        InfoEntry::Title(_) => 0,
        InfoEntry::Artist(_) => 1,
        InfoEntry::AlbumTitle(_) => 2,
        InfoEntry::PlaybackDuration(_) => 3,
        InfoEntry::ElapsedPlaybackTime(_) => 4,
        InfoEntry::PlaybackRate(_) => 5,
        InfoEntry::Artwork(_) => 6,
    }
}

/// Entries of the track, in order, all before `end`.
spec fn in_order(entries: Seq<InfoEntry>, m: NowPlayingMetadata, end: int) -> bool {
    &&& forall|i: int|
        0 <= i < entries.len() ==> is_entry_of(#[trigger] entries[i], m) && rank(entries[i]) < end
    &&& forall|i: int, j: int|
        0 <= i < j < entries.len() ==> rank(#[trigger] entries[i]) < rank(#[trigger] entries[j])
}

/// What is put in for the field at `place`.
spec fn piece(m: NowPlayingMetadata, place: int) -> Seq<InfoEntry> {
    if place == 0 {
        entry_for(m.title, |t: String| InfoEntry::Title(t))
    } else if place == 1 {
        entry_for(m.artist, |t: String| InfoEntry::Artist(t))
    } else if place == 2 {
        entry_for(m.album, |t: String| InfoEntry::AlbumTitle(t))
    } else if place == 3 {
        entry_for(m.duration, |v: u64| InfoEntry::PlaybackDuration(v))
    } else if place == 4 {
        entry_for(m.elapsed, |v: u64| InfoEntry::ElapsedPlaybackTime(v))
    } else if place == 5 {
        entry_for(m.rate, |v: u64| InfoEntry::PlaybackRate(v))
    } else {
        artwork_entry(m.art_url)
    }
}

/// What is put in for the fields before `end`.
spec fn pieces(m: NowPlayingMetadata, end: int) -> Seq<InfoEntry>
    decreases end,
{
    if end <= 0 {
        Seq::empty()
    } else {
        pieces(m, end - 1) + piece(m, end - 1)
    }
}

proof fn piece_is_one_entry(m: NowPlayingMetadata, place: int)
    requires
        0 <= place < 7,
    ensures
        piece(m, place).len() <= 1,
        piece(m, place).len() == 1 ==> is_entry_of(piece(m, place)[0], m) && rank(
            piece(m, place)[0],
        ) == place,
{
}

proof fn pieces_in_order(m: NowPlayingMetadata, end: int)
    requires
        0 <= end <= 7,
    ensures
        in_order(pieces(m, end), m, end),
    decreases end,
{
    if end > 0 {
        pieces_in_order(m, end - 1);
        piece_is_one_entry(m, end - 1);
    }
}

proof fn piece_is_put_in(m: NowPlayingMetadata, end: int, place: int)
    requires
        0 <= place < end <= 7,
        piece(m, place).len() == 1,
    ensures
        pieces(m, end).contains(piece(m, place)[0]),
    decreases end,
{
    let earlier = pieces(m, end - 1);
    if place < end - 1 {
        piece_is_put_in(m, end - 1, place);
        let i = choose|i: int| 0 <= i < earlier.len() && earlier[i] == piece(m, place)[0];
        assert(pieces(m, end)[i] == piece(m, place)[0]);
    } else {
        assert(pieces(m, end)[earlier.len() as int] == piece(m, place)[0]);
    }
}

proof fn entries_are_pieces(m: NowPlayingMetadata)
    ensures
        info_entries(m) == pieces(m, 7),
{
    reveal_with_fuel(pieces, 8);
    assert(Seq::<InfoEntry>::empty() + piece(m, 0) =~= piece(m, 0));
}

/// The info center shows the track.
pub proof fn info_shows_the_track(m: NowPlayingMetadata)
    ensures
        shows_the_track(info_entries(m), m),
{
    let all = pieces(m, 7);
    entries_are_pieces(m);
    pieces_in_order(m, 7);
    if m.title is Some {
        piece_is_put_in(m, 7, 0);
    }
    if m.artist is Some {
        piece_is_put_in(m, 7, 1);
    }
    if m.album is Some {
        piece_is_put_in(m, 7, 2);
    }
    if m.duration is Some {
        piece_is_put_in(m, 7, 3);
    }
    if m.elapsed is Some {
        piece_is_put_in(m, 7, 4);
    }
    if m.rate is Some {
        piece_is_put_in(m, 7, 5);
    }
    if m.art_url is Some && m.art_url->0@.len() > 0 {
        piece_is_put_in(m, 7, 6);
    }
    assert forall|i: int, j: int| 0 <= i < j < all.len() implies #[trigger] all[i]
        != #[trigger] all[j] by {
        assert(rank(all[i]) < rank(all[j]));
    }
    assert forall|i: int| 0 <= i < all.len() implies is_entry_of(#[trigger] all[i], m) by {}
}

/// The session listens to every command, and attaches to each once.
pub proof fn every_command_is_attached(command: Command)
    ensures
        command_list().contains(command),
        forall|i: int, j: int|
            0 <= i < j < command_list().len() ==> #[trigger] command_list()[i]
                != #[trigger] command_list()[j],
{
    let list = command_list();
    assert(list[0] == Command::Play && list[1] == Command::Pause);
    assert(list[2] == Command::TogglePlayPause && list[3] == Command::NextTrack);
    assert(list[4] == Command::PreviousTrack && list[5] == Command::ChangePlaybackPosition);
}

/// An event comes of the command of its name, and only of that; a position is the one that was
/// asked for, and a rate comes of no command.
pub proof fn events_come_of_their_commands(command: Command, position: u64)
    ensures
        match event_of(command, position) {
            MediaSessionEvents::Play => command is Play,
            MediaSessionEvents::Pause => command is Pause,
            MediaSessionEvents::Toggle => command is TogglePlayPause,
            MediaSessionEvents::Next => command is NextTrack,
            MediaSessionEvents::Previous => command is PreviousTrack,
            MediaSessionEvents::SetPosition { position: p } => command is ChangePlaybackPosition && p
                == position,
            MediaSessionEvents::SetRate { rate } => false,
        },
{
}

} // verus!
