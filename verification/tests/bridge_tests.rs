use airsend::dialog::{FileDialog, MessageDialog, MessageType, SaveSingleFile};
use airsend::events::{
    event_qualifies, path_is_transient, should_forward, EventQueue, FsEventKind,
};
use airsend::strutil::u64_to_string;

#[test]
fn only_finalizing_events_qualify() {
    assert!(event_qualifies(FsEventKind::CloseWrite));
    assert!(event_qualifies(FsEventKind::RenameTo));
    assert!(event_qualifies(FsEventKind::RenameBoth));
    assert!(!event_qualifies(FsEventKind::Other));
}

#[test]
fn transient_paths_are_dropped() {
    assert!(path_is_transient("/pics/shot.png.tmp"));
    assert!(path_is_transient("/pics/shot.png.pending"));
    assert!(path_is_transient("/pics/.trashed-shot.png"));
    assert!(path_is_transient(".hidden"));
    assert!(!path_is_transient("/pics/shot.png"));
    assert!(!path_is_transient("shot.png"));
    // The hidden marker counts only on the final component.
    assert!(!path_is_transient("/data/.cache/shot.png"));
}

#[test]
fn forwarding_needs_both_kind_and_clean_path() {
    assert!(should_forward(FsEventKind::CloseWrite, "/pics/shot.png"));
    assert!(!should_forward(FsEventKind::Other, "/pics/shot.png"));
    assert!(!should_forward(FsEventKind::CloseWrite, "/pics/shot.png.tmp"));
    assert!(!should_forward(FsEventKind::RenameTo, "/pics/.partial"));
}

#[test]
fn event_queue_is_fifo() {
    let mut q = EventQueue::new(8);
    assert_eq!(q.len(), 0);
    assert!(q.pop().is_none());
    q.push("/a".to_string());
    q.push("/b".to_string());
    assert_eq!(q.len(), 2);
    assert_eq!(q.pop().as_deref(), Some("/a"));
    assert_eq!(q.pop().as_deref(), Some("/b"));
    assert!(q.pop().is_none());
}

#[test]
fn event_queue_drops_oldest_at_capacity() {
    let mut q = EventQueue::new(2);
    q.push("/a".to_string());
    q.push("/b".to_string());
    q.push("/c".to_string());
    assert_eq!(q.len(), 2);
    assert_eq!(q.pop().as_deref(), Some("/b"));
    assert_eq!(q.pop().as_deref(), Some("/c"));
    assert!(q.pop().is_none());
}

#[test]
fn decimal_rendering_is_exact() {
    assert_eq!(u64_to_string(0), "0");
    assert_eq!(u64_to_string(7), "7");
    assert_eq!(u64_to_string(10), "10");
    assert_eq!(u64_to_string(105), "105");
    assert_eq!(u64_to_string(18446744073709551615), "18446744073709551615");
}

#[test]
fn save_dialog_never_picks_a_path() {
    let dialog = SaveSingleFile::new().set_location("/tmp").set_filename("a.txt");
    assert_eq!(dialog.show(), Ok(None));
}

#[test]
fn open_dialog_never_picks_a_file() {
    let dialog = FileDialog::new().add_filter("images", &["png", "jpg"]);
    assert_eq!(dialog.show_open_single_file(), Ok(None));
}

#[test]
fn confirm_dialog_always_consents() {
    let dialog = MessageDialog::new()
        .set_title("incoming")
        .set_text("accept the transfer?")
        .set_type(MessageType::Info);
    assert_eq!(dialog.show_confirm(), Ok(true));
}
