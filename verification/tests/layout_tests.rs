use std::collections::BTreeSet;

use keyberon::action::{k, l, m, Action, HoldTapConfig};
use keyberon::key_code::KeyCode;
use keyberon::key_code::KeyCode::{Enter, LAlt, LCtrl, LShift, Space, E, F};
use keyberon::layout::Event::{Press, Release};
use keyberon::layout::{map_retain, CustomEvent, Layers, Layout, NoCustom};

fn assert_keys(expected: &[KeyCode], actual: Vec<KeyCode>) {
    let expected: BTreeSet<_> = expected.iter().copied().collect();
    let tested: BTreeSet<_> = actual.into_iter().collect();
    assert_eq!(expected, tested);
}

fn ht<T>(timeout: u16, hold: Action<T>, tap: Action<T>, config: HoldTapConfig) -> Action<T> {
    Action::HoldTap {
        timeout,
        hold: Box::new(hold),
        tap: Box::new(tap),
        config,
        tap_hold_interval: 0,
    }
}

#[test]
fn basic_hold_tap() {
    let layers: Layers<NoCustom> = vec![
        vec![vec![
            ht(200, l(1), k(Space), HoldTapConfig::Default),
            ht(200, k(LCtrl), k(Enter), HoldTapConfig::Default),
        ]],
        vec![vec![Action::Trans, m(vec![LCtrl, Enter])]],
    ];
    let mut layout = Layout::new(layers);
    assert_eq!(CustomEvent::NoEvent, layout.tick());
    assert_keys(&[], layout.keycodes());
    layout.event(Press(0, 1));
    assert_eq!(CustomEvent::NoEvent, layout.tick());
    assert_keys(&[], layout.keycodes());
    layout.event(Press(0, 0));
    assert_eq!(CustomEvent::NoEvent, layout.tick());
    assert_keys(&[], layout.keycodes());
    layout.event(Release(0, 0));
    for _ in 0..197 {
        assert_eq!(CustomEvent::NoEvent, layout.tick());
        assert_keys(&[], layout.keycodes());
    }
    assert_eq!(CustomEvent::NoEvent, layout.tick());
    assert_keys(&[], layout.keycodes());
    assert_eq!(CustomEvent::NoEvent, layout.tick());
    assert_keys(&[LCtrl], layout.keycodes());
    assert_eq!(CustomEvent::NoEvent, layout.tick());
    assert_keys(&[LCtrl], layout.keycodes());
    assert_eq!(CustomEvent::NoEvent, layout.tick());
    assert_keys(&[LCtrl, Space], layout.keycodes());
    assert_eq!(CustomEvent::NoEvent, layout.tick());
    assert_keys(&[LCtrl], layout.keycodes());
    layout.event(Release(0, 1));
    assert_eq!(CustomEvent::NoEvent, layout.tick());
    assert_keys(&[], layout.keycodes());
}

#[test]
fn hold_tap_interleaved_timeout() {
    let layers: Layers<NoCustom> = vec![vec![vec![
        ht(200, k(LAlt), k(Space), HoldTapConfig::Default),
        ht(20, k(LCtrl), k(Enter), HoldTapConfig::Default),
    ]]];
    let mut layout = Layout::new(layers);
    assert_eq!(CustomEvent::NoEvent, layout.tick());
    assert_keys(&[], layout.keycodes());
    layout.event(Press(0, 0));
    assert_eq!(CustomEvent::NoEvent, layout.tick());
    assert_keys(&[], layout.keycodes());
    layout.event(Press(0, 1));
    for _ in 0..15 {
        assert_eq!(CustomEvent::NoEvent, layout.tick());
        assert_keys(&[], layout.keycodes());
    }
    layout.event(Release(0, 0));
    assert_eq!(CustomEvent::NoEvent, layout.tick());
    assert_keys(&[Space], layout.keycodes());
    for _ in 0..10 {
        assert_eq!(CustomEvent::NoEvent, layout.tick());
        assert_keys(&[Space], layout.keycodes());
    }
    layout.event(Release(0, 1));
    assert_eq!(CustomEvent::NoEvent, layout.tick());
    assert_keys(&[Space, LCtrl], layout.keycodes());
    assert_eq!(CustomEvent::NoEvent, layout.tick());
    assert_keys(&[LCtrl], layout.keycodes());
    assert_eq!(CustomEvent::NoEvent, layout.tick());
    assert_keys(&[], layout.keycodes());
    assert_eq!(CustomEvent::NoEvent, layout.tick());
    assert_keys(&[], layout.keycodes());
}

#[test]
fn hold_on_press() {
    let layers: Layers<NoCustom> = vec![vec![vec![
        ht(200, k(LAlt), k(Space), HoldTapConfig::HoldOnOtherKeyPress),
        k(Enter),
    ]]];
    let mut layout = Layout::new(layers);

    // Press another key before timeout
    assert_eq!(CustomEvent::NoEvent, layout.tick());
    assert_keys(&[], layout.keycodes());
    layout.event(Press(0, 0));
    assert_eq!(CustomEvent::NoEvent, layout.tick());
    assert_keys(&[], layout.keycodes());
    layout.event(Press(0, 1));
    assert_eq!(CustomEvent::NoEvent, layout.tick());
    assert_keys(&[LAlt], layout.keycodes());
    assert_eq!(CustomEvent::NoEvent, layout.tick());
    assert_keys(&[LAlt, Enter], layout.keycodes());
    layout.event(Release(0, 0));
    assert_eq!(CustomEvent::NoEvent, layout.tick());
    assert_keys(&[Enter], layout.keycodes());
    layout.event(Release(0, 1));
    assert_eq!(CustomEvent::NoEvent, layout.tick());
    assert_keys(&[], layout.keycodes());
    assert_eq!(CustomEvent::NoEvent, layout.tick());
    assert_keys(&[], layout.keycodes());

    // Press another key after timeout
    assert_eq!(CustomEvent::NoEvent, layout.tick());
    assert_keys(&[], layout.keycodes());
    layout.event(Press(0, 0));
    for _ in 0..200 {
        assert_eq!(CustomEvent::NoEvent, layout.tick());
        assert_keys(&[], layout.keycodes());
    }
    assert_eq!(CustomEvent::NoEvent, layout.tick());
    assert_keys(&[LAlt], layout.keycodes());
    layout.event(Press(0, 1));
    assert_eq!(CustomEvent::NoEvent, layout.tick());
    assert_keys(&[LAlt, Enter], layout.keycodes());
    layout.event(Release(0, 0));
    assert_eq!(CustomEvent::NoEvent, layout.tick());
    assert_keys(&[Enter], layout.keycodes());
    layout.event(Release(0, 1));
    assert_eq!(CustomEvent::NoEvent, layout.tick());
    assert_keys(&[], layout.keycodes());
    assert_eq!(CustomEvent::NoEvent, layout.tick());
    assert_keys(&[], layout.keycodes());
}

#[test]
fn permissive_hold() {
    let layers: Layers<NoCustom> = vec![vec![vec![
        ht(200, k(LAlt), k(Space), HoldTapConfig::PermissiveHold),
        k(Enter),
    ]]];
    let mut layout = Layout::new(layers);

    // Press and release another key before timeout
    assert_eq!(CustomEvent::NoEvent, layout.tick());
    assert_keys(&[], layout.keycodes());
    layout.event(Press(0, 0));
    assert_eq!(CustomEvent::NoEvent, layout.tick());
    assert_keys(&[], layout.keycodes());
    layout.event(Press(0, 1));
    assert_eq!(CustomEvent::NoEvent, layout.tick());
    assert_keys(&[], layout.keycodes());
    layout.event(Release(0, 1));
    assert_eq!(CustomEvent::NoEvent, layout.tick());
    assert_keys(&[LAlt], layout.keycodes());
    assert_eq!(CustomEvent::NoEvent, layout.tick());
    assert_keys(&[LAlt, Enter], layout.keycodes());
    assert_eq!(CustomEvent::NoEvent, layout.tick());
    assert_keys(&[LAlt], layout.keycodes());
    assert_eq!(CustomEvent::NoEvent, layout.tick());
    assert_keys(&[LAlt], layout.keycodes());
    layout.event(Release(0, 0));
    assert_eq!(CustomEvent::NoEvent, layout.tick());
    assert_keys(&[], layout.keycodes());
    assert_eq!(CustomEvent::NoEvent, layout.tick());
    assert_keys(&[], layout.keycodes());
}

#[test]
fn multiple_actions() {
    let layers: Layers<NoCustom> = vec![
        vec![vec![Action::MultipleActions(vec![l(1), k(LShift)]), k(F)]],
        vec![vec![Action::Trans, k(E)]],
    ];
    let mut layout = Layout::new(layers);
    assert_eq!(CustomEvent::NoEvent, layout.tick());
    assert_keys(&[], layout.keycodes());
    layout.event(Press(0, 0));
    assert_eq!(CustomEvent::NoEvent, layout.tick());
    assert_keys(&[LShift], layout.keycodes());
    layout.event(Press(0, 1));
    assert_eq!(CustomEvent::NoEvent, layout.tick());
    assert_keys(&[LShift, E], layout.keycodes());
    layout.event(Release(0, 1));
    layout.event(Release(0, 0));
    assert_eq!(CustomEvent::NoEvent, layout.tick());
    assert_keys(&[LShift], layout.keycodes());
    assert_eq!(CustomEvent::NoEvent, layout.tick());
    assert_keys(&[], layout.keycodes());
}

#[test]
fn multiple_custom_actions() {
    let layers: Layers<u8> = vec![vec![vec![Action::MultipleActions(vec![
        Action::Custom(1),
        Action::Custom(2),
        Action::Custom(3),
    ])]]];
    let mut layout = Layout::new(layers);

    // Custom event
    layout.event(Press(0, 0));
    assert_eq!(CustomEvent::Press(1), layout.tick());
    assert_keys(&[], layout.keycodes());

    // nothing more
    assert_eq!(CustomEvent::NoEvent, layout.tick());
    assert_keys(&[], layout.keycodes());

    // release custom
    layout.event(Release(0, 0));
    assert_eq!(CustomEvent::Release(1), layout.tick());
    assert_keys(&[], layout.keycodes());
}

#[test]
fn custom() {
    let layers: Layers<u8> = vec![vec![vec![Action::Custom(42)]]];
    let mut layout = Layout::new(layers);
    assert_eq!(CustomEvent::NoEvent, layout.tick());
    assert_keys(&[], layout.keycodes());

    // Custom event
    layout.event(Press(0, 0));
    assert_eq!(CustomEvent::Press(42), layout.tick());
    assert_keys(&[], layout.keycodes());

    // nothing more
    assert_eq!(CustomEvent::NoEvent, layout.tick());
    assert_keys(&[], layout.keycodes());

    // release custom
    layout.event(Release(0, 0));
    assert_eq!(CustomEvent::Release(42), layout.tick());
    assert_keys(&[], layout.keycodes());
}

#[test]
fn test_map_retain() {
    let mut vec: Vec<u32> = vec![1, 2, 3, 4, 5, 6, 7, 8];

    // Remove every odd number
    let _ = map_retain(&mut vec, |n: &u32| if n % 2 == 0 { Some(*n) } else { None });

    // Check that every number that's left is even
    assert!(vec.iter().all(|n| n % 2 == 0));
}
