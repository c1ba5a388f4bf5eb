use calaos_core::event::Event;

#[test]
fn check_event_value() {
    assert_eq!(Event::IOChanged as i32, 3);
    let s: &'static str = From::from(Event::IOChanged);
    assert_eq!(s, "io_changed");
}

#[test]
fn event_names_and_codes() {
    assert_eq!(Event::Unknown.code(), 0);
    assert_eq!(Event::PushNotification.code(), 22);
    assert_eq!(Event::PushNotification.code(), Event::PushNotification as i32);
    assert_eq!(Event::AudioPlaylistAdd.name(), "playlist_tracks_added");
    assert_eq!(Event::TouchScreenCamera.name(), "touchscreen_camera_request");
    assert_eq!(Event::IOPropertyDelete.name(), "io_prop_deleted");
}
