use vu_meter::channel::{open_channels, send_all};
use vu_meter::level::{bar_value, BAR_MAX, FLOOR, SILENCE};
use vu_meter::reducer::{reduce, Loudness};
use vu_meter::render::{
    group_areas, quit_requested, Command, DisplayState, GroupArea, KeyKind, Polled, RenderLoop,
};

const QUIT: Polled = Polled::Key { kind: KeyKind::Press, symbol: Some('q') };

#[test]
fn bar_values_at_chosen_levels() {
    assert_eq!(bar_value(0), 100);
    assert_eq!(bar_value(-1), 99);
    assert_eq!(bar_value(-60), 99);
    assert_eq!(bar_value(-61), 98);
    assert_eq!(bar_value(-3000), 50);
    assert_eq!(bar_value(-5940), 1);
    assert_eq!(bar_value(-5941), 0);
    assert_eq!(bar_value(-5999), 0);
    assert_eq!(bar_value(FLOOR), 0);
    assert_eq!(bar_value(FLOOR - 1), 0);
    assert_eq!(bar_value(SILENCE), 0);
    assert_eq!(bar_value(1), BAR_MAX);
    assert_eq!(bar_value(i32::MAX), BAR_MAX);
}

#[test]
fn bar_value_never_falls_as_the_level_rises() {
    let mut last = bar_value(-7000);
    for level in -7000..=500 {
        let bar = bar_value(level);
        assert!(bar >= last);
        assert!(bar <= BAR_MAX);
        last = bar;
    }
    assert_eq!(last, BAR_MAX);
}

#[test]
fn silent_block_shows_empty_bars() {
    let block = [0i16; 8192];
    let levels = reduce(&block, 2).unwrap();
    assert_eq!(levels, vec![Loudness::Silence, Loudness::Silence]);
    let fresh: Vec<Option<i32>> = levels
        .iter()
        .map(|l| match l {
            Loudness::Silence => Some(SILENCE),
            Loudness::Power { .. } => None,
        })
        .collect();
    let mut meter = RenderLoop::new(2);
    assert_eq!(meter.tick(&[Some(-100), Some(-200)]), Some(vec![98, 96]));
    assert_eq!(meter.tick(&fresh), Some(vec![0, 0]));
}

#[test]
fn new_display_is_silent() {
    let state = DisplayState::new(3);
    assert_eq!(state.channels(), 3);
    assert_eq!(state.level(0), Some(SILENCE));
    assert_eq!(state.level(2), Some(SILENCE));
    assert_eq!(state.level(3), None);
    assert_eq!(state.bars(), vec![0, 0, 0]);
    let none = DisplayState::new(0);
    assert_eq!(none.channels(), 0);
    assert_eq!(none.bars(), Vec::<u64>::new());
}

#[test]
fn fresh_level_replaces_the_last_and_underrun_keeps_it() {
    let mut state = DisplayState::new(2);
    state.observe(0, Some(-1200));
    assert_eq!(state.level(0), Some(-1200));
    assert_eq!(state.level(1), Some(SILENCE));
    state.observe(0, None);
    assert_eq!(state.level(0), Some(-1200));
    state.observe(1, Some(-300));
    state.observe(0, Some(-900));
    assert_eq!(state.level(0), Some(-900));
    assert_eq!(state.level(1), Some(-300));
    state.observe(2, Some(-1));
    assert_eq!(state.channels(), 2);
    assert_eq!(state.bars(), vec![85, 95]);
}

#[test]
fn absorb_takes_each_channel_by_itself() {
    let mut state = DisplayState::new(3);
    state.absorb(&[Some(-100), None, Some(-300)]);
    assert_eq!(state.level(0), Some(-100));
    assert_eq!(state.level(1), Some(SILENCE));
    assert_eq!(state.level(2), Some(-300));
    state.absorb(&[None, Some(-200)]);
    assert_eq!(state.level(0), Some(-100));
    assert_eq!(state.level(1), Some(-200));
    assert_eq!(state.level(2), Some(-300));
    state.absorb(&[None, None, None, Some(-5)]);
    assert_eq!(state.channels(), 3);
    assert_eq!(state.level(2), Some(-300));
}

#[test]
fn starved_loop_keeps_drawing_the_last_levels() {
    let mut meter = RenderLoop::new(2);
    assert_eq!(meter.tick(&[Some(-600), Some(-1800)]), Some(vec![90, 70]));
    for _ in 0..10_000 {
        assert_eq!(meter.tick(&[None, None]), Some(vec![90, 70]));
        assert_eq!(meter.step(Polled::Quiet), Command::Continue);
    }
    assert_eq!(meter.level(0), Some(-600));
    assert_eq!(meter.level(1), Some(-1800));
    assert!(meter.is_running());
}

#[test]
fn loop_that_never_saw_a_level_draws_empty_bars() {
    let mut meter = RenderLoop::new(2);
    for _ in 0..100 {
        assert_eq!(meter.tick(&[None, None]), Some(vec![0, 0]));
        assert_eq!(meter.tick(&[]), Some(vec![0, 0]));
    }
}

#[test]
fn quit_key_ends_the_loop_with_one_release() {
    let mut meter = RenderLoop::new(2);
    let mut releases = 0;
    for tick in 0..20 {
        let bars = meter.tick(&[Some(-100 * tick), None]);
        let polled = if tick == 7 { QUIT } else { Polled::Quiet };
        let command = meter.step(polled);
        if tick < 7 {
            assert!(bars.is_some());
            assert_eq!(command, Command::Continue);
            assert!(meter.is_running());
        } else if tick == 7 {
            assert!(bars.is_some());
            assert_eq!(command, Command::Release);
            assert!(!meter.is_running());
        } else {
            assert_eq!(bars, None);
            assert_eq!(command, Command::Halt);
            assert!(!meter.is_running());
        }
        if command == Command::Release {
            releases += 1;
        }
    }
    assert_eq!(releases, 1);
    assert_eq!(meter.level(0), Some(-700));
}

#[test]
fn second_quit_key_releases_nothing_more() {
    let mut meter = RenderLoop::new(1);
    assert_eq!(meter.step(QUIT), Command::Release);
    assert_eq!(meter.step(QUIT), Command::Halt);
    assert_eq!(meter.step(Polled::Failed), Command::Halt);
}

#[test]
fn failure_ends_the_loop_with_one_release() {
    let mut meter = RenderLoop::new(1);
    assert_eq!(meter.step(Polled::Other), Command::Continue);
    assert_eq!(meter.step(Polled::Failed), Command::Release);
    assert!(!meter.is_running());
    assert_eq!(meter.step(Polled::Quiet), Command::Halt);
}

#[test]
fn only_a_press_of_q_quits() {
    assert!(quit_requested(QUIT));
    assert!(!quit_requested(Polled::Key { kind: KeyKind::Release, symbol: Some('q') }));
    assert!(!quit_requested(Polled::Key { kind: KeyKind::Repeat, symbol: Some('q') }));
    assert!(!quit_requested(Polled::Key { kind: KeyKind::Press, symbol: Some('Q') }));
    assert!(!quit_requested(Polled::Key { kind: KeyKind::Press, symbol: Some('x') }));
    assert!(!quit_requested(Polled::Key { kind: KeyKind::Press, symbol: None }));
    assert!(!quit_requested(Polled::Quiet));
    assert!(!quit_requested(Polled::Other));
    assert!(!quit_requested(Polled::Failed));
    let mut meter = RenderLoop::new(1);
    assert_eq!(
        meter.step(Polled::Key { kind: KeyKind::Release, symbol: Some('q') }),
        Command::Continue
    );
    assert_eq!(
        meter.step(Polled::Key { kind: KeyKind::Press, symbol: Some('x') }),
        Command::Continue
    );
    assert!(meter.is_running());
}

#[test]
fn groups_are_stacked_from_the_top() {
    assert_eq!(
        group_areas(2, 2),
        Some(vec![GroupArea { top: 0, height: 2 }, GroupArea { top: 2, height: 2 }])
    );
    assert_eq!(
        group_areas(3, 5),
        Some(vec![
            GroupArea { top: 0, height: 5 },
            GroupArea { top: 5, height: 5 },
            GroupArea { top: 10, height: 5 },
        ])
    );
    assert_eq!(group_areas(0, 7), Some(vec![]));
    assert_eq!(group_areas(0, usize::MAX), Some(vec![]));
    assert_eq!(group_areas(2, 0).map(|a| a.len()), Some(2));
}

#[test]
fn groups_that_run_out_of_rows_are_refused() {
    assert_eq!(group_areas(1, 65535).map(|a| a.len()), Some(1));
    assert_eq!(group_areas(1, 65536), None);
    assert_eq!(group_areas(2, 32768), None);
    assert_eq!(group_areas(65535, 1).map(|a| a.len()), Some(65535));
    assert_eq!(group_areas(65536, 1), None);
    assert_eq!(group_areas(usize::MAX, usize::MAX), None);
}

#[test]
fn polling_loop_shows_what_the_channels_give() {
    let (mut senders, mut receivers) = open_channels(2, 8).unwrap();
    let mut meter = RenderLoop::new(2);
    assert_eq!(meter.poll(&mut receivers), Some(vec![0, 0]));
    assert_eq!(send_all(&mut senders, &[-600, -1800]), 0);
    assert_eq!(senders[0].send(-1200), true);
    assert_eq!(meter.poll(&mut receivers), Some(vec![90, 70]));
    assert_eq!(meter.poll(&mut receivers), Some(vec![80, 70]));
    for _ in 0..1000 {
        assert_eq!(meter.poll(&mut receivers), Some(vec![80, 70]));
    }
    assert_eq!(meter.level(0), Some(-1200));
    assert_eq!(meter.level(1), Some(-1800));
}

#[test]
fn ended_loop_polls_no_more() {
    let (mut senders, mut receivers) = open_channels(1, 8).unwrap();
    let mut meter = RenderLoop::new(1);
    assert_eq!(send_all(&mut senders, &[-600]), 0);
    assert_eq!(meter.step(QUIT), Command::Release);
    assert_eq!(meter.poll(&mut receivers), None);
    assert_eq!(meter.level(0), Some(SILENCE));
    assert_eq!(receivers[0].receive(), Some(-600));
}

#[test]
fn loop_with_fewer_halves_than_channels_keeps_the_rest() {
    let (mut senders, mut receivers) = open_channels(1, 8).unwrap();
    let mut meter = RenderLoop::new(3);
    assert_eq!(meter.tick(&[Some(-100), Some(-200), Some(-300)]), Some(vec![98, 96, 95]));
    assert_eq!(send_all(&mut senders, &[-3000]), 0);
    assert_eq!(meter.poll(&mut receivers), Some(vec![50, 96, 95]));
}
