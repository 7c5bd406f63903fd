use emma::action::Action;
use emma::comm::{ReadFileRequest, ReadFileResponse, ReadFileResponseBody, Request, Response};
use emma::key_map::KeyMapLookup;
use emma::key_sequence::KeySequence;
use emma::minibuf::{get_minibuf_keymap, MinibufState};
use emma::shell::Size;
use emma::util::make_id;

#[test]
fn make_id_shape() {
    let id = make_id("pane");
    assert_eq!(id.len(), 13);
    assert!(id.starts_with("pane-"));
    assert!(id[5..].chars().all(|c| c.is_ascii_alphanumeric()));
    // Two identifiers are almost surely different.
    assert_ne!(make_id("x"), make_id("x"));
}

#[test]
fn minibuf_keymaps() {
    let inactive = get_minibuf_keymap(MinibufState::Inactive).unwrap();
    assert_eq!(
        inactive.lookup(&KeySequence::parse("<ret>").unwrap()),
        KeyMapLookup::BadSequence
    );
    let open = get_minibuf_keymap(MinibufState::OpenFile).unwrap();
    assert_eq!(
        open.lookup(&KeySequence::parse("<ctrl>i").unwrap()),
        KeyMapLookup::Action(Action::Autocomplete)
    );
    assert_eq!(
        open.lookup(&KeySequence::parse("<ret>").unwrap()),
        KeyMapLookup::Action(Action::Confirm)
    );
    assert!(get_minibuf_keymap(MinibufState::SelectBuffer).is_ok());
}

#[test]
fn comm_messages() {
    let req = Request::ReadFile(ReadFileRequest { id: [1; 8], path: "/tmp/a".into() });
    assert_ne!(req, Request::Ping);
    let resp = Response::ReadFile(ReadFileResponse {
        id: [1; 8],
        body: ReadFileResponseBody::Data(vec![1, 2, 3]),
    });
    assert_ne!(resp, Response::Pong);
    assert_eq!(Request::Stop, Request::Stop);
    let size = Size { rows: 24, columns: 80, width_in_pixels: 0, height_in_pixels: 0 };
    assert_eq!(size.columns, 80);
}
