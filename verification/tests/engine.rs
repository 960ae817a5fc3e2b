use keyberon::action::Action::{HoldTap, MultipleActions, Trans};
use keyberon::action::{d, k, l, m, Action};
use keyberon::key_code::KeyCode;
use keyberon::layout::Layers;
use split_keyboard::engine::{check_table, distinct, merge_signals, signal_of, Engine};
use split_keyboard::event::CustomEvent::{NoEvent, Press, Release};
use split_keyboard::event::{CustomEvent, KeyEvent};

const A: u8 = 0x04;
const B: u8 = 0x05;
const SPACE: u8 = 0x2C;
const LSHIFT: u8 = 0xE1;
const BOOT: u8 = 0xFB;

static SHIFT_SPACE: Action = HoldTap {
    timeout: 200,
    hold: &k(KeyCode::LShift),
    tap: &k(KeyCode::Space),
};

const SHIFT_SPACE_PART: Action = HoldTap {
    timeout: 200,
    hold: &k(KeyCode::LShift),
    tap: &k(KeyCode::Space),
};

static LAYERS: Layers = &[
    &[&[
        HoldTap {
            timeout: 200,
            hold: &k(KeyCode::LShift),
            tap: &k(KeyCode::Space),
        },
        k(KeyCode::B),
        l(1),
        k(KeyCode::A),
        k(KeyCode::A),
        k(KeyCode::MediaCalc),
    ]],
    &[&[
        Trans,
        Trans,
        Trans,
        m(&[KeyCode::LShift, KeyCode::A]),
        Trans,
        Trans,
    ]],
];

fn engine() -> Engine {
    Engine::new(LAYERS, Some(BOOT)).unwrap()
}

fn ticks(e: &mut Engine, n: usize) {
    for _ in 0..n {
        e.tick();
    }
}

#[test]
fn plain_key_follows_its_switch() {
    let mut e = engine();
    assert_eq!(e.keycodes(), vec![]);
    e.event(KeyEvent::Press(0, 1));
    e.tick();
    assert_eq!(e.keycodes(), vec![B]);
    ticks(&mut e, 500);
    assert_eq!(e.keycodes(), vec![B]);
    e.event(KeyEvent::Release(0, 1));
    e.tick();
    assert_eq!(e.keycodes(), vec![]);
}

#[test]
fn hold_past_timeout_asserts_hold_only() {
    let mut e = engine();
    e.event(KeyEvent::Press(0, 0));
    for _ in 0..199 {
        e.tick();
        assert_eq!(e.keycodes(), vec![]);
    }
    e.tick();
    assert_eq!(e.keycodes(), vec![LSHIFT]);
    for _ in 0..300 {
        e.tick();
        assert_eq!(e.keycodes(), vec![LSHIFT]);
    }
    e.event(KeyEvent::Release(0, 0));
    assert!(!e.keycodes().contains(&SPACE));
    e.tick();
    assert_eq!(e.keycodes(), vec![]);
}

#[test]
fn release_before_timeout_is_one_tap() {
    let mut e = engine();
    let mut seen: Vec<Vec<u8>> = Vec::new();
    e.event(KeyEvent::Press(0, 0));
    seen.push(e.keycodes());
    for _ in 0..50 {
        e.tick();
        seen.push(e.keycodes());
    }
    e.event(KeyEvent::Release(0, 0));
    seen.push(e.keycodes());
    for _ in 0..400 {
        e.tick();
        seen.push(e.keycodes());
    }
    assert!(seen.iter().all(|codes| !codes.contains(&LSHIFT)));
    let mut presses = 0;
    let mut releases = 0;
    for pair in seen.windows(2) {
        let before = pair[0].contains(&SPACE);
        let after = pair[1].contains(&SPACE);
        if !before && after {
            presses += 1;
        }
        if before && !after {
            releases += 1;
        }
    }
    assert_eq!((presses, releases), (1, 1));
    assert_eq!(e.keycodes(), vec![]);
}

#[test]
fn rollover_resolves_hold_tap_as_tap() {
    let mut e = engine();
    let mut seen: Vec<Vec<u8>> = Vec::new();
    e.event(KeyEvent::Press(0, 0));
    e.tick();
    seen.push(e.keycodes());
    e.event(KeyEvent::Press(0, 1));
    e.tick();
    seen.push(e.keycodes());
    e.event(KeyEvent::Release(0, 0));
    seen.push(e.keycodes());
    e.tick();
    seen.push(e.keycodes());
    e.event(KeyEvent::Release(0, 1));
    seen.push(e.keycodes());
    for _ in 0..400 {
        e.tick();
        seen.push(e.keycodes());
    }
    assert!(seen.iter().all(|codes| !codes.contains(&LSHIFT)));
    assert!(seen.iter().any(|codes| codes.contains(&SPACE)));
    assert!(seen.iter().any(|codes| codes.contains(&B)));
    assert_eq!(e.keycodes(), vec![]);
}

#[test]
fn transparent_binding_falls_to_default_layer() {
    let mut e = engine();
    e.event(KeyEvent::Press(0, 2));
    e.tick();
    assert_eq!(e.keycodes(), vec![]);
    e.event(KeyEvent::Press(0, 1));
    e.tick();
    assert_eq!(e.keycodes(), vec![B]);
    e.event(KeyEvent::Press(0, 3));
    e.tick();
    assert_eq!(e.keycodes(), vec![B, LSHIFT, A]);
}

#[test]
fn same_code_from_two_keys_appears_once() {
    let mut e = engine();
    e.event(KeyEvent::Press(0, 3));
    e.tick();
    e.event(KeyEvent::Press(0, 4));
    e.tick();
    assert_eq!(e.keycodes(), vec![A]);
    e.event(KeyEvent::Release(0, 3));
    e.tick();
    assert_eq!(e.keycodes(), vec![A]);
    e.event(KeyEvent::Release(0, 4));
    e.tick();
    assert_eq!(e.keycodes(), vec![]);
}

#[test]
fn unmatched_release_is_ignored() {
    let mut e = engine();
    e.event(KeyEvent::Release(0, 1));
    assert_eq!(e.tick(), CustomEvent::NoEvent);
    assert_eq!(e.keycodes(), vec![]);
    e.event(KeyEvent::Release(9, 9));
    assert_eq!(e.tick(), CustomEvent::NoEvent);
    assert_eq!(e.keycodes(), vec![]);
}

#[test]
fn press_outside_the_table_does_nothing() {
    let mut e = engine();
    e.event(KeyEvent::Press(200, 200));
    assert_eq!(e.tick(), CustomEvent::NoEvent);
    assert_eq!(e.keycodes(), vec![]);
    e.event(KeyEvent::Press(0, 1));
    e.tick();
    assert_eq!(e.keycodes(), vec![B]);
}

#[test]
fn long_hold_stays_asserted() {
    let mut e = engine();
    e.event(KeyEvent::Press(0, 1));
    for _ in 0..70_000 {
        assert_eq!(e.tick(), CustomEvent::NoEvent);
    }
    assert_eq!(e.keycodes(), vec![B]);
}

#[test]
fn more_events_than_the_layout_stacks() {
    let mut e = engine();
    for _ in 0..20 {
        e.event(KeyEvent::Press(0, 1));
        e.event(KeyEvent::Release(0, 1));
    }
    for _ in 0..100 {
        e.tick();
    }
    assert_eq!(e.keycodes(), vec![]);
}

#[test]
fn reserved_key_raises_custom_events() {
    let mut e = engine();
    e.event(KeyEvent::Press(0, 5));
    assert_eq!(e.tick(), CustomEvent::Press);
    assert_eq!(e.keycodes(), vec![]);
    assert_eq!(e.tick(), CustomEvent::NoEvent);
    e.event(KeyEvent::Press(0, 1));
    assert_eq!(e.tick(), CustomEvent::NoEvent);
    assert_eq!(e.keycodes(), vec![B]);
    e.event(KeyEvent::Release(0, 5));
    assert_eq!(e.tick(), CustomEvent::Release);
    assert_eq!(e.tick(), CustomEvent::NoEvent);
    assert_eq!(e.keycodes(), vec![B]);
}

#[test]
fn without_reserved_code_every_key_reaches_the_host() {
    let mut e = Engine::new(LAYERS, None).unwrap();
    e.event(KeyEvent::Press(0, 5));
    assert_eq!(e.tick(), CustomEvent::NoEvent);
    assert_eq!(e.keycodes(), vec![BOOT]);
}

#[test]
fn tapped_reserved_key_reports_release() {
    static TABLE: Layers = &[&[&[HoldTap {
        timeout: 200,
        hold: &k(KeyCode::LShift),
        tap: &k(KeyCode::MediaCalc),
    }]]];
    let mut e = Engine::new(TABLE, Some(BOOT)).unwrap();
    e.event(KeyEvent::Press(0, 0));
    assert_eq!(e.tick(), CustomEvent::NoEvent);
    e.event(KeyEvent::Release(0, 0));
    assert_eq!(e.tick(), CustomEvent::Release);
    assert_eq!(e.tick(), CustomEvent::NoEvent);
}

#[test]
fn hold_tap_inside_a_composite_is_refused() {
    static NESTED_HOLD: Layers = &[&[&[HoldTap {
        timeout: 10,
        hold: &SHIFT_SPACE,
        tap: &k(KeyCode::A),
    }]]];
    static NESTED_TAP: Layers = &[&[&[HoldTap {
        timeout: 10,
        hold: &k(KeyCode::A),
        tap: &MultipleActions(&[k(KeyCode::A), SHIFT_SPACE_PART]),
    }]]];
    static GROUP_OF_HOLD_TAPS: Layers = &[&[
        &[k(KeyCode::A)],
        &[MultipleActions(&[
            k(KeyCode::A),
            HoldTap {
                timeout: 10,
                hold: &k(KeyCode::A),
                tap: &k(KeyCode::B),
            },
        ])],
    ]];
    assert!(!check_table(NESTED_HOLD));
    assert!(!check_table(NESTED_TAP));
    assert!(!check_table(GROUP_OF_HOLD_TAPS));
    assert!(Engine::new(NESTED_HOLD, None).is_none());
    assert!(Engine::new(GROUP_OF_HOLD_TAPS, None).is_none());
}

#[test]
fn held_layer_numbers_must_add_up() {
    static TOO_HIGH: Layers = &[&[&[l(usize::MAX)]]];
    static JUST_TOO_HIGH: Layers = &[&[&[k(KeyCode::A)], &[l(usize::MAX / 64 + 1)]]];
    static HIGHEST: Layers = &[&[&[
        l(usize::MAX / 64),
        l(256),
        MultipleActions(&[l(usize::MAX / 64), k(KeyCode::A)]),
    ]]];
    static ANY_DEFAULT: Layers = &[&[&[d(1000), d(usize::MAX)]]];
    assert!(!check_table(TOO_HIGH));
    assert!(!check_table(JUST_TOO_HIGH));
    assert!(check_table(HIGHEST));
    assert!(check_table(ANY_DEFAULT));
    assert!(check_table(LAYERS));
    assert!(check_table(&[]));
}

#[test]
fn highest_layers_can_all_be_held() {
    static TABLE: Layers = &[&[&[l(usize::MAX / 64), l(usize::MAX / 64), k(KeyCode::A)]]];
    let mut e = Engine::new(TABLE, None).unwrap();
    e.event(KeyEvent::Press(0, 0));
    e.tick();
    e.event(KeyEvent::Press(0, 1));
    e.tick();
    e.event(KeyEvent::Press(0, 2));
    e.tick();
    assert_eq!(e.keycodes(), vec![]);
    e.event(KeyEvent::Release(0, 0));
    e.tick();
    e.event(KeyEvent::Release(0, 1));
    e.tick();
    e.event(KeyEvent::Release(0, 2));
    e.tick();
    e.event(KeyEvent::Press(0, 2));
    e.tick();
    assert_eq!(e.keycodes(), vec![A]);
}

#[test]
fn default_layer_outside_the_table_is_ignored() {
    static TABLE: Layers = &[&[&[d(1000), k(KeyCode::A)]]];
    let mut e = Engine::new(TABLE, None).unwrap();
    e.event(KeyEvent::Press(0, 0));
    e.tick();
    e.event(KeyEvent::Press(0, 1));
    e.tick();
    assert_eq!(e.keycodes(), vec![A]);
}

#[test]
fn groups_nest_to_a_bounded_depth() {
    const G1: Action = MultipleActions(&[k(KeyCode::A)]);
    const G2: Action = MultipleActions(&[G1]);
    const G3: Action = MultipleActions(&[G2]);
    const G4: Action = MultipleActions(&[G3]);
    const G5: Action = MultipleActions(&[G4]);
    const G6: Action = MultipleActions(&[G5]);
    const G7: Action = MultipleActions(&[G6]);
    const G8: Action = MultipleActions(&[k(KeyCode::B), G7]);
    const G9: Action = MultipleActions(&[G8]);
    static DEEPEST: Layers = &[&[&[G8]]];
    static TOO_DEEP: Layers = &[&[&[k(KeyCode::A), G9]]];
    static TOO_DEEP_HOLD: Layers = &[&[&[HoldTap {
        timeout: 10,
        hold: &G9,
        tap: &k(KeyCode::A),
    }]]];
    assert!(check_table(DEEPEST));
    assert!(!check_table(TOO_DEEP));
    assert!(!check_table(TOO_DEEP_HOLD));
    let mut e = Engine::new(DEEPEST, None).unwrap();
    e.event(KeyEvent::Press(0, 0));
    e.tick();
    assert_eq!(e.keycodes(), vec![B, A]);
    e.event(KeyEvent::Release(0, 0));
    e.tick();
    assert_eq!(e.keycodes(), vec![]);
}

#[test]
fn hold_and_tap_may_be_groups() {
    static TABLE: Layers = &[
        &[&[
            HoldTap {
                timeout: 20,
                hold: &MultipleActions(&[l(1), k(KeyCode::LShift)]),
                tap: &MultipleActions(&[k(KeyCode::A), MultipleActions(&[k(KeyCode::B)])]),
            },
            k(KeyCode::Space),
        ]],
        &[&[Trans, k(KeyCode::A)]],
    ];
    let mut e = Engine::new(TABLE, None).unwrap();
    e.event(KeyEvent::Press(0, 0));
    e.tick();
    e.event(KeyEvent::Release(0, 0));
    assert_eq!(e.keycodes(), vec![A, B]);
    e.tick();
    assert_eq!(e.keycodes(), vec![]);
    e.event(KeyEvent::Press(0, 0));
    for _ in 0..20 {
        e.tick();
    }
    assert_eq!(e.keycodes(), vec![LSHIFT]);
    e.event(KeyEvent::Press(0, 1));
    e.tick();
    assert_eq!(e.keycodes(), vec![LSHIFT, A]);
}

#[test]
fn full_stack_forces_a_pending_hold() {
    let mut e = engine();
    e.event(KeyEvent::Press(0, 0));
    e.tick();
    for _ in 0..17 {
        e.event(KeyEvent::Press(0, 1));
    }
    assert!(e.keycodes().contains(&LSHIFT));
    assert!(!e.keycodes().contains(&SPACE));
}

#[test]
fn group_of_basic_bindings_is_accepted() {
    static TABLE: Layers = &[
        &[&[MultipleActions(&[l(1), k(KeyCode::LShift)]), k(KeyCode::B)]],
        &[&[Trans, k(KeyCode::A)]],
    ];
    let mut e = Engine::new(TABLE, None).unwrap();
    e.event(KeyEvent::Press(0, 0));
    e.tick();
    assert_eq!(e.keycodes(), vec![LSHIFT]);
    e.event(KeyEvent::Press(0, 1));
    e.tick();
    assert_eq!(e.keycodes(), vec![LSHIFT, A]);
}

#[test]
fn default_layer_switch_changes_the_base() {
    static TABLE: Layers = &[
        &[&[d(1), k(KeyCode::A)]],
        &[&[d(0), k(KeyCode::B)]],
    ];
    let mut e = Engine::new(TABLE, None).unwrap();
    e.event(KeyEvent::Press(0, 0));
    e.tick();
    e.event(KeyEvent::Release(0, 0));
    e.tick();
    e.event(KeyEvent::Press(0, 1));
    e.tick();
    assert_eq!(e.keycodes(), vec![B]);
}

#[test]
fn distinct_keeps_first_appearances() {
    assert_eq!(distinct(&vec![4, 5, 4, 6, 5, 4], None), vec![4, 5, 6]);
    assert_eq!(distinct(&vec![4, 5, 4, 6, 5, 4], Some(5)), vec![4, 6]);
    assert_eq!(distinct(&vec![], Some(5)), vec![]);
    assert_eq!(distinct(&vec![7, 7, 7], Some(7)), vec![]);
}

#[test]
fn release_outranks_press() {
    assert_eq!(signal_of(false, false), NoEvent);
    assert_eq!(signal_of(false, true), Press);
    assert_eq!(signal_of(true, false), Release);
    assert_eq!(signal_of(true, true), NoEvent);
    assert_eq!(merge_signals(Press, Release), Release);
    assert_eq!(merge_signals(Release, Press), Release);
    assert_eq!(merge_signals(Release, NoEvent), Release);
    assert_eq!(merge_signals(NoEvent, Press), Press);
    assert_eq!(merge_signals(Press, NoEvent), Press);
    assert_eq!(merge_signals(NoEvent, NoEvent), NoEvent);
}
