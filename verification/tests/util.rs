use skycache::input::KeyboardState;
use skycache::signal::Signal;
use skycache::sounds::{NoSounds, Sounds};
use skycache::texts::ImageInfo;
use skycache::world::Mode;

#[test]
fn mode_cycles() {
    assert_eq!(Mode::MoveCameraPos.next(), Mode::MoveCameraFront);
    assert_eq!(Mode::MoveCameraFront.next(), Mode::MoveCameraUp);
    assert_eq!(Mode::MoveCameraUp.next(), Mode::MoveCameraPos);
    let m = Mode::MoveCameraPos;
    assert_eq!(m.next().next().next(), m);
}

#[test]
fn keyboard_default_released() {
    let k = KeyboardState::default();
    assert!(!k.a && !k.d && !k.w && !k.s && !k.q && !k.e && !k.z && !k.x && !k.c && !k.cmd);
}

#[test]
fn no_sounds_plays_silently() {
    let mut s = NoSounds::new();
    s.play();
    s.play();
}

#[test]
fn signal_raised_then_waited() {
    let s = Signal::new();
    s.signal();
    s.wait_and_reset();
    // the wait cleared the flag; raising it again works the same way
    s.signal();
    s.wait_and_reset();
}

#[test]
fn image_info_carries_corners() {
    let info = ImageInfo { min: (1, 2), max: (30, 40) };
    assert_eq!(info.min, (1, 2));
    assert_eq!(info.max.1, 40);
}
