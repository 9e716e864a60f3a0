use rusterize::pixel::{blue, green, red, white, Pixel};
use rusterize::screen::TextScreen;
use rusterize::{frame_sleep_nanos, Input, LoopState, ScreenConfig};

#[test]
fn loop_state_new_and_tick() {
    let s = LoopState::new();
    assert!(s.running && !s.paused && !s.step);
    assert!(!s.should_tick());
}

#[test]
fn loop_state_inputs() {
    let mut s = LoopState::new();
    s.handle(Input::TogglePause);
    assert!(s.paused && s.should_tick());
    s.handle(Input::TogglePause);
    assert!(!s.paused);
    s.handle(Input::Step);
    assert!(s.step);
    assert!(s.begin_tick());
    assert!(!s.step);
    assert!(!s.begin_tick());
    s.handle(Input::Other);
    assert!(s.running);
    s.handle(Input::Quit);
    assert!(!s.running);
}

#[test]
fn frame_pacing() {
    let c = ScreenConfig { title: "t", width: 8, height: 6, target_fps: 60 };
    assert_eq!(c.frame_len_nanos(), 16_666_666);
    assert_eq!(frame_sleep_nanos(100, 30), Some(70));
    assert_eq!(frame_sleep_nanos(100, 100), None);
}

#[test]
fn pixel_from_raw_and_packing() {
    let p = Pixel::from_raw(0xAA33_2211);
    assert_eq!(p, Pixel { r: 0x11, g: 0x22, b: 0x33 });
    assert_eq!(p.as_u32(), 0xFF33_2211);
    assert_eq!(p.as_rgba(), (0x11, 0x22, 0x33, 0xff));
}

#[test]
fn pixel_as_char_by_brightness() {
    assert_eq!(white().as_char(), 'X');
    assert_eq!(Pixel { r: 0xff, g: 0xff, b: 0 }.as_char(), 'x');
    assert_eq!(red().as_char(), '.');
    assert_eq!(Pixel { r: 0xc0, g: 0, b: 0 }.as_char(), ' ');
    assert_eq!(green(), Pixel { r: 0, g: 0xff, b: 0 });
    assert_eq!(blue(), Pixel { r: 0, g: 0, b: 0xff });
}

#[test]
fn text_screen_dimensions() {
    let s = TextScreen::new("demo", 80, 24);
    assert_eq!((s.width(), s.height()), (80, 24));
}
