use bg_driver::driver::{
    blank_screenshot, Action, ActionResult, Button, MacosDriver, WindowsDriver, SCREEN_HEIGHT,
    SCREEN_WIDTH,
};

fn failure(r: ActionResult) -> String {
    match r {
        ActionResult::Failure(m) => m,
        other => panic!("expected a failure, got {:?}", other),
    }
}

#[test]
fn screenshot_is_black_and_matches_screen_size() {
    let d = WindowsDriver;
    match d.execute(&Action::Screenshot) {
        ActionResult::Screenshot(s) => {
            assert_eq!((s.width, s.height), d.screen_size());
            assert_eq!(s.rgba.len(), 1280 * 720 * 4);
            assert!(s.rgba.iter().all(|b| *b == 0));
        }
        other => panic!("unexpected {:?}", other),
    }
    assert_eq!(MacosDriver.screen_size(), (SCREEN_WIDTH, SCREEN_HEIGHT));
}

#[test]
fn backend_names() {
    assert_eq!(MacosDriver.name(), "macos");
    assert_eq!(WindowsDriver.name(), "windows");
}

#[test]
fn stub_messages() {
    let w = WindowsDriver;
    assert_eq!(failure(w.execute(&Action::MouseMove { x: 3, y: -4 })), "windows mouse_move stub x=3 y=-4");
    assert_eq!(
        failure(w.execute(&Action::MouseClick { x: 10, y: 20, button: Button::Middle })),
        "windows mouse_click stub x=10 y=20 button=Middle"
    );
    assert_eq!(failure(w.execute(&Action::MouseScroll { dx: 0, dy: -120 })), "windows scroll stub dx=0 dy=-120");
    assert_eq!(failure(w.execute(&Action::KeyTap { key: "enter".into() })), "windows key_tap stub enter");
    let m = MacosDriver;
    assert_eq!(
        failure(m.execute(&Action::TypeText { text: "hi \"there\"\n".into() })),
        "macos type_text stub \"hi \\\"there\\\"\\n\""
    );
    assert_eq!(
        failure(m.execute(&Action::FocusWindow { title: "Mail".into() })),
        "macos focus_window stub \"Mail\""
    );
}

#[test]
fn blank_screenshot_dimensions() {
    let s = blank_screenshot();
    assert_eq!((s.width, s.height, s.rgba.len()), (1280, 720, 3_686_400));
}
