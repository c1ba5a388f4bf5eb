//! Events that the server notifies to its websocket clients.

use vstd::prelude::*;

verus! {

/// Kind of an event; the order of the variants gives their numeric code.
#[derive(Debug, PartialEq, Eq, Structural, Clone, Copy)]
pub enum Event {
    Unknown,
    IOAdded,
    IODeleted,
    IOChanged,
    IOPropertyDelete,
    RoomAdded,
    RoomDeleted,
    RoomChanged,
    RoomPropertyDelete,
    TimeRangeChanged,
    ScenarioAdded,
    ScenarioDeleted,
    ScenarioChanged,
    AudioSongChanged,
    AudioPlaylistAdd,
    AudioPlaylistDelete,
    AudioPlaylistMove,
    AudioPlaylistReload,
    AudioPlaylistCleared,
    AudioStatusChanged,
    AudioVolumeChanged,
    TouchScreenCamera,
    PushNotification,
}

/// The name of an event in the Calaos protocol.
pub open spec fn event_text(e: Event) -> Seq<char> {
    match e {
        Event::Unknown => "unknown"@,
        Event::IOAdded => "io_added"@,
        Event::IODeleted => "io_deleted"@,
        Event::IOChanged => "io_changed"@,
        Event::IOPropertyDelete => "io_prop_deleted"@,
        Event::RoomAdded => "room_added"@,
        Event::RoomDeleted => "room_deleted"@,
        Event::RoomChanged => "room_changed"@,
        Event::RoomPropertyDelete => "room_prop_deleted"@,
        Event::TimeRangeChanged => "timerange_changed"@,
        Event::ScenarioAdded => "scenario_added"@,
        Event::ScenarioDeleted => "scenario_deleted"@,
        Event::ScenarioChanged => "scenario_changed"@,
        Event::AudioSongChanged => "audio_song_changed"@,
        Event::AudioPlaylistAdd => "playlist_tracks_added"@,
        Event::AudioPlaylistDelete => "playlist_tracks_deleted"@,
        Event::AudioPlaylistMove => "playlist_tracks_moved"@,
        Event::AudioPlaylistReload => "playlist_reload"@,
        Event::AudioPlaylistCleared => "playlist_cleared"@,
        Event::AudioStatusChanged => "audio_status_changed"@,
        Event::AudioVolumeChanged => "audio_volume_changed"@,
        Event::TouchScreenCamera => "touchscreen_camera_request"@,
        Event::PushNotification => "push_notif"@,
    }
}

/// The numeric code of an event: its position in the list of kinds.
pub open spec fn event_code(e: Event) -> i32 {
    match e {
        Event::Unknown => 0,
        Event::IOAdded => 1,
        Event::IODeleted => 2,
        Event::IOChanged => 3,
        Event::IOPropertyDelete => 4,
        Event::RoomAdded => 5,
        Event::RoomDeleted => 6,
        Event::RoomChanged => 7,
        Event::RoomPropertyDelete => 8,
        Event::TimeRangeChanged => 9,
        Event::ScenarioAdded => 10,
        Event::ScenarioDeleted => 11,
        Event::ScenarioChanged => 12,
        Event::AudioSongChanged => 13,
        Event::AudioPlaylistAdd => 14,
        Event::AudioPlaylistDelete => 15,
        Event::AudioPlaylistMove => 16,
        Event::AudioPlaylistReload => 17,
        Event::AudioPlaylistCleared => 18,
        Event::AudioStatusChanged => 19,
        Event::AudioVolumeChanged => 20,
        Event::TouchScreenCamera => 21,
        Event::PushNotification => 22,
    }
}

impl Event {
    /// The name of the event.
    pub fn name(&self) -> (r: &'static str)
        ensures
            r@ == event_text(*self),
    {
        match self {
            Event::Unknown => "unknown",
            Event::IOAdded => "io_added",
            Event::IODeleted => "io_deleted",
            Event::IOChanged => "io_changed",
            Event::IOPropertyDelete => "io_prop_deleted",
            Event::RoomAdded => "room_added",
            Event::RoomDeleted => "room_deleted",
            Event::RoomChanged => "room_changed",
            Event::RoomPropertyDelete => "room_prop_deleted",
            Event::TimeRangeChanged => "timerange_changed",
            Event::ScenarioAdded => "scenario_added",
            Event::ScenarioDeleted => "scenario_deleted",
            Event::ScenarioChanged => "scenario_changed",
            Event::AudioSongChanged => "audio_song_changed",
            Event::AudioPlaylistAdd => "playlist_tracks_added",
            Event::AudioPlaylistDelete => "playlist_tracks_deleted",
            Event::AudioPlaylistMove => "playlist_tracks_moved",
            Event::AudioPlaylistReload => "playlist_reload",
            Event::AudioPlaylistCleared => "playlist_cleared",
            Event::AudioStatusChanged => "audio_status_changed",
            Event::AudioVolumeChanged => "audio_volume_changed",
            Event::TouchScreenCamera => "touchscreen_camera_request",
            Event::PushNotification => "push_notif",
        }
    }

    /// The numeric code of the event.
    pub fn code(&self) -> (r: i32)
        ensures
            r == event_code(*self),
    {
        match self {
            Event::Unknown => 0,
            Event::IOAdded => 1,
            Event::IODeleted => 2,
            Event::IOChanged => 3,
            Event::IOPropertyDelete => 4,
            Event::RoomAdded => 5,
            Event::RoomDeleted => 6,
            Event::RoomChanged => 7,
            Event::RoomPropertyDelete => 8,
            Event::TimeRangeChanged => 9,
            Event::ScenarioAdded => 10,
            Event::ScenarioDeleted => 11,
            Event::ScenarioChanged => 12,
            Event::AudioSongChanged => 13,
            Event::AudioPlaylistAdd => 14,
            Event::AudioPlaylistDelete => 15,
            Event::AudioPlaylistMove => 16,
            Event::AudioPlaylistReload => 17,
            Event::AudioPlaylistCleared => 18,
            Event::AudioStatusChanged => 19,
            Event::AudioVolumeChanged => 20,
            Event::TouchScreenCamera => 21,
            Event::PushNotification => 22,
        }
    }
}

impl From<Event> for &'static str {
    fn from(value: Event) -> (r: &'static str)
        ensures
            r@ == event_text(value),
    {
        value.name()
    }
}

impl vstd::std_specs::convert::FromSpecImpl<Event> for &'static str {
    open spec fn obeys_from_spec() -> bool {
        false
    }

    open spec fn from_spec(v: Event) -> &'static str {
        arbitrary()
    }
}

/// Two different kinds of event never share a code.
pub proof fn lemma_event_code_injective(a: Event, b: Event)
    requires
        event_code(a) == event_code(b),
    ensures
        a == b,
{
}

} // verus!
