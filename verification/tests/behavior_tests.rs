use std::collections::BTreeSet;

use keyberon::action::{k, l, Action, HoldTapConfig};
use keyberon::debounced_matrix::DebouncedMatrix;
use keyberon::key_code::KeyCode;
use keyberon::key_code::KeyCode::{
    Bslash, Dot, Enter, Kb0, Kb1, Kb9, LAlt, LBracket, LShift, Minus, Quote, SColon, Space, A, B,
};
use keyberon::keycodes::{literal_to_keycode, punctuation_to_keycode, LiteralError};
use keyberon::layout::{map_retain, CustomEvent, Event, Layers, Layout, NoCustom};

fn assert_keys(expected: &[KeyCode], actual: Vec<KeyCode>) {
    let expected: BTreeSet<_> = expected.iter().copied().collect();
    let tested: BTreeSet<_> = actual.into_iter().collect();
    assert_eq!(expected, tested);
}

#[test]
fn event_coord_and_kind() {
    assert_eq!((3, 10), Event::Press(3, 10).coord());
    assert_eq!((7, 2), Event::Release(7, 2).coord());
    assert!(Event::Press(0, 0).is_press());
    assert!(!Event::Press(0, 0).is_release());
    assert!(Event::Release(0, 0).is_release());
    assert!(!Event::Release(0, 0).is_press());
}

#[test]
fn event_transform_mirrors_columns() {
    assert_eq!(
        Event::Press(3, 10),
        Event::Press(3, 1).transform(|i, j| (i, 11 - j)),
    );
    // A permutation applied and then undone gives the event back.
    let e = Event::Release(2, 5);
    assert_eq!(e, e.transform(|i, j| (j, i)).transform(|i, j| (j, i)));
}

#[test]
fn custom_event_update_order() {
    // The channel only grows along NoEvent < Press < Release, earlier
    // report winning ties.
    let mut c: CustomEvent<u8> = CustomEvent::NoEvent;
    c.update(CustomEvent::NoEvent);
    assert_eq!(CustomEvent::NoEvent, c);
    c.update(CustomEvent::Press(1));
    assert_eq!(CustomEvent::Press(1), c);
    c.update(CustomEvent::Press(2));
    assert_eq!(CustomEvent::Press(1), c);
    c.update(CustomEvent::NoEvent);
    assert_eq!(CustomEvent::Press(1), c);
    c.update(CustomEvent::Release(3));
    assert_eq!(CustomEvent::Release(3), c);
    c.update(CustomEvent::Release(4));
    assert_eq!(CustomEvent::Release(3), c);
    c.update(CustomEvent::Press(5));
    assert_eq!(CustomEvent::Release(3), c);
}

#[test]
fn default_layer_switching() {
    let layers: Layers<NoCustom> = vec![
        vec![vec![k(A), Action::DefaultLayer(1)]],
        vec![vec![k(B), Action::DefaultLayer(9)]],
    ];
    let mut layout = Layout::new(layers);
    assert_eq!(0, layout.current_layer());
    layout.event(Event::Press(0, 1));
    layout.tick();
    assert_eq!(1, layout.current_layer());
    // An out-of-range default layer is ignored.
    layout.event(Event::Release(0, 1));
    layout.tick();
    layout.event(Event::Press(0, 1));
    layout.tick();
    assert_eq!(1, layout.current_layer());
    layout.set_default_layer(0);
    assert_eq!(0, layout.current_layer());
    layout.set_default_layer(7);
    assert_eq!(0, layout.current_layer());
}

#[test]
fn momentary_layer_stacks() {
    let layers: Layers<NoCustom> = vec![
        vec![vec![l(1), k(A)]],
        vec![vec![Action::NoOp, k(B)]],
    ];
    let mut layout = Layout::new(layers);
    layout.event(Event::Press(0, 0));
    layout.tick();
    assert_eq!(1, layout.current_layer());
    layout.event(Event::Press(0, 1));
    layout.tick();
    assert_keys(&[B], layout.keycodes());
    layout.event(Event::Release(0, 1));
    layout.event(Event::Release(0, 0));
    layout.tick();
    layout.tick();
    assert_eq!(0, layout.current_layer());
    assert_keys(&[], layout.keycodes());
}

#[test]
fn deque_overflow_forces_processing() {
    let layers: Layers<NoCustom> = vec![vec![vec![k(A)]]];
    let mut layout = Layout::new(layers);
    // Sixteen events fit in the queue without being processed.
    for _ in 0..8 {
        layout.event(Event::Press(0, 0));
        layout.event(Event::Release(0, 0));
    }
    assert_keys(&[], layout.keycodes());
    // The seventeenth evicts the oldest press, which is processed at once.
    layout.event(Event::Press(0, 0));
    assert_keys(&[A], layout.keycodes());
}

#[test]
fn states_capacity_is_bounded()  {
    let layers: Layers<NoCustom> = vec![vec![vec![k(A), k(B)]]];
    let mut layout = Layout::new(layers);
    for _ in 0..100 {
        layout.event(Event::Press(0, 0));
        layout.tick();
    }
    assert!(layout.keycodes().len() <= 64);
    // Releasing the coordinate empties every state it created.
    layout.event(Event::Release(0, 0));
    layout.tick();
    assert_keys(&[], layout.keycodes());
}

#[test]
fn hold_tap_forced_by_overflow() {
    let layers: Layers<NoCustom> = vec![vec![vec![
        Action::HoldTap {
            timeout: 200,
            hold: Box::new(k(LAlt)),
            tap: Box::new(k(Space)),
            config: HoldTapConfig::Default,
            tap_hold_interval: 0,
        },
        k(Enter),
    ]]];
    let mut layout = Layout::new(layers);
    layout.event(Event::Press(0, 0));
    layout.tick();
    assert_keys(&[], layout.keycodes());
    // Flood the queue: the eviction forces the pending hold-tap to hold.
    for _ in 0..17 {
        layout.event(Event::Press(0, 1));
    }
    assert_keys(&[LAlt, Enter], layout.keycodes());
}

#[test]
fn scanner_debounces_presses() {
    let mut m: DebouncedMatrix<()> = DebouncedMatrix::new(1, 2, ());
    let down = vec![1u32];
    let up = vec![0u32];
    // The new image must persist for more than the threshold.
    assert!(m.scan(&down).is_none());
    assert!(m.scan(&down).is_none());
    let events = m.scan(&down).expect("stable after persisting");
    assert_eq!(vec![Event::Press(0, 0)], events);
    // Stable image: no further events.
    assert!(m.scan(&down).is_none());
    // A bounce shorter than the threshold never surfaces.
    assert!(m.scan(&up).is_none());
    assert!(m.scan(&down).is_none());
    assert!(m.scan(&down).is_none());
    assert!(m.scan(&down).is_none());
    // A real release debounces like a press.
    assert!(m.scan(&up).is_none());
    assert!(m.scan(&up).is_none());
    let events = m.scan(&up).expect("release after persisting");
    assert_eq!(vec![Event::Release(0, 0)], events);
}

#[test]
fn scanner_events_reconstruct_image() {
    let mut m: DebouncedMatrix<()> = DebouncedMatrix::new(2, 0, ());
    let samples = vec![
        vec![0b1001u32, 0u32],
        vec![0b1001u32, 0b100u32],
        vec![0b0001u32, 0b100u32],
    ];
    let mut image = vec![0u32; 2];
    for s in &samples {
        if let Some(events) = m.scan(s) {
            for e in events {
                match e {
                    Event::Press(i, j) => image[i as usize] |= 1 << j,
                    Event::Release(i, j) => image[i as usize] &= !(1 << j),
                }
            }
        }
    }
    // Applying the emitted events to an empty image rebuilds the final
    // stable image exactly.
    assert_eq!(vec![0b0001u32, 0b100u32], image);
}

#[test]
fn scanner_row_major_order() {
    let mut m: DebouncedMatrix<()> = DebouncedMatrix::new(2, 0, ());
    let events = m.scan(&vec![0b10u32, 0b1u32]).expect("immediate with zero threshold");
    assert_eq!(vec![Event::Press(0, 1), Event::Press(1, 0)], events);
}

#[test]
fn punctuation_lowering() {
    assert_eq!(
        Some(Action::KeyCode(Minus)),
        punctuation_to_keycode::<u8>('-')
    );
    assert_eq!(Some(Action::KeyCode(Dot)), punctuation_to_keycode::<u8>('.'));
    assert_eq!(
        Some(Action::MultipleKeyCodes(vec![LShift, Kb1])),
        punctuation_to_keycode::<u8>('!')
    );
    assert_eq!(
        Some(Action::MultipleKeyCodes(vec![LShift, SColon])),
        punctuation_to_keycode::<u8>(':')
    );
    assert_eq!(None, punctuation_to_keycode::<u8>('a'));
}

#[test]
fn literal_lowering() {
    assert_eq!(Ok(Action::KeyCode(Kb1)), literal_to_keycode::<u8>("1"));
    assert_eq!(Ok(Action::KeyCode(Kb0)), literal_to_keycode::<u8>("0"));
    assert_eq!(Ok(Action::KeyCode(LBracket)), literal_to_keycode::<u8>("'['"));
    assert_eq!(Ok(Action::KeyCode(Quote)), literal_to_keycode::<u8>("'\\''"));
    assert_eq!(Ok(Action::KeyCode(Bslash)), literal_to_keycode::<u8>("'\\\\'"));
    assert_eq!(
        Ok(Action::MultipleKeyCodes(vec![LShift, Kb9])),
        literal_to_keycode::<u8>("'('")
    );
    assert_eq!(
        Ok(Action::MultipleKeyCodes(vec![LShift, Minus])),
        literal_to_keycode::<u8>("'_'")
    );
    assert_eq!(
        Err(LiteralError::CharNotAKeycode),
        literal_to_keycode::<u8>("'x'")
    );
    assert_eq!(
        Err(LiteralError::SingleCharStringNotSupported),
        literal_to_keycode::<u8>("\"a\"")
    );
    assert_eq!(
        Err(LiteralError::StringNotSupported),
        literal_to_keycode::<u8>("\"abc\"")
    );
    assert_eq!(
        Err(LiteralError::UnknownLiteral),
        literal_to_keycode::<u8>("10")
    );
}

#[test]
fn trans_falls_through_to_default_layer() {
    let layers: Layers<NoCustom> = vec![
        vec![vec![l(1), k(A)]],
        vec![vec![Action::NoOp, Action::Trans]],
    ];
    let mut layout = Layout::new(layers);
    // With layer 1 held, the transparent key uses the default layer's action.
    layout.event(Event::Press(0, 0));
    layout.tick();
    layout.event(Event::Press(0, 1));
    layout.tick();
    assert_keys(&[A], layout.keycodes());
    layout.event(Event::Release(0, 1));
    layout.event(Event::Release(0, 0));
    layout.tick();
    layout.tick();
    assert_keys(&[], layout.keycodes());
}

#[test]
fn out_of_range_press_degrades_to_noop() {
    let layers: Layers<NoCustom> = vec![vec![vec![k(A)]]];
    let mut layout = Layout::new(layers);
    layout.event(Event::Press(5, 9));
    assert_eq!(CustomEvent::NoEvent, layout.tick());
    assert_keys(&[], layout.keycodes());
    layout.event(Event::Release(5, 9));
    assert_eq!(CustomEvent::NoEvent, layout.tick());
    assert_keys(&[], layout.keycodes());
}

#[test]
fn layer_offsets_add_in_insertion_order() {
    let layers: Layers<NoCustom> = vec![
        vec![vec![l(1), k(A)]],
        vec![vec![Action::NoOp, l(2)]],
        vec![vec![k(B), k(B)]],
        vec![vec![k(Space), k(Space)]],
    ];
    let mut layout = Layout::new(layers);
    layout.event(Event::Press(0, 0));
    layout.tick();
    assert_eq!(1, layout.current_layer());
    // The second held modifier adds its offset to the first.
    layout.event(Event::Press(0, 1));
    layout.tick();
    assert_eq!(3, layout.current_layer());
    layout.event(Event::Release(0, 1));
    layout.tick();
    assert_eq!(1, layout.current_layer());
    layout.event(Event::Release(0, 0));
    layout.tick();
    assert_eq!(0, layout.current_layer());
}

#[test]
fn map_retain_keeps_every_survivor() {
    let mut vec: Vec<u32> = vec![1, 2, 3, 4, 5, 6, 7, 8];
    let _ = map_retain(&mut vec, |n: &u32| if n % 2 == 0 { Some(*n) } else { None });
    // Exactly the elements mapped to `Some` survive, in order.
    assert_eq!(vec![2, 4, 6, 8], vec);
}

#[test]
fn ready_for_event_reports_overflow_hazard() {
    // A hold branch that is itself a hold-tap starts a new arbitration when
    // it resolves; with a full queue whose oldest entry is a press, taking
    // one more event would process that press with the new arbitration
    // already pending.
    let inner = Action::HoldTap {
        timeout: 50,
        hold: Box::new(k(LAlt)),
        tap: Box::new(k(Space)),
        config: HoldTapConfig::Default,
        tap_hold_interval: 0,
    };
    let layers: Layers<NoCustom> = vec![vec![vec![
        Action::HoldTap {
            timeout: 200,
            hold: Box::new(inner),
            tap: Box::new(k(Space)),
            config: HoldTapConfig::Default,
            tap_hold_interval: 0,
        },
        k(Enter),
    ]]];
    let mut layout = Layout::new(layers);
    assert!(layout.ready_for_event());
    layout.event(Event::Press(0, 0));
    layout.tick();
    for _ in 0..15 {
        layout.event(Event::Press(0, 1));
        assert!(layout.ready_for_event());
    }
    layout.event(Event::Press(0, 1));
    assert!(!layout.ready_for_event());
}
