use chunked_arena::utils::sequencer::Sequencer;

#[test]
fn check_first_value() {
    let mut sequencer = Sequencer::new(0, 1, 5);
    let first = sequencer.next().unwrap();
    assert_eq!(first, 0);
    assert_eq!(sequencer.current(), 1);
    assert_eq!(sequencer.free(), 4);

    let mut sequencer = Sequencer::new(0, 3, 5);
    let first = sequencer.next().unwrap();
    assert_eq!(first, 0);
    assert_eq!(sequencer.current(), 3);
    assert_eq!(sequencer.free(), 2);
}

#[test]
fn check_last_value() {
    let sequencer = Sequencer::new(0, 1, 1000);
    let last = sequencer.last().unwrap();
    assert_eq!(last, 1000);

    let sequencer = Sequencer::new(0, 256, 1000);
    let last = sequencer.last().unwrap();
    assert_eq!(last, 768);
}

#[test]
fn sequencer_works() {
    let mut sequencer = Sequencer::new(0, 100, 500);

    for i in (0..=500).step_by(100) {
        assert_eq!(sequencer.next().unwrap(), i);
        assert_eq!(sequencer.current(), i + 100);
        assert_eq!(
            sequencer.free(),
            500_u32.saturating_sub(sequencer.current())
        );
    }

    let mut sequencer = Sequencer::new(0, 256, 500);

    for i in (0..=500).step_by(256) {
        assert_eq!(sequencer.next().unwrap(), i);
        assert_eq!(sequencer.current(), i + 256);
        assert_eq!(
            sequencer.free(),
            500_u32.saturating_sub(sequencer.current())
        );
    }
}

#[test]
fn check_free() {
    let mut sequencer = Sequencer::new(0, 100, 5);
    assert_eq!(sequencer.free(), 5);
    assert_eq!(sequencer.next().unwrap(), 0);
    assert_eq!(sequencer.free(), 0);
}

#[test]
fn default_sequencer_is_all_zero() {
    let sequencer = Sequencer::default();
    assert_eq!(
        (sequencer.current(), sequencer.step(), sequencer.max_id()),
        (0, 0, 0)
    );
    assert_eq!(sequencer.free(), 0);
}

#[test]
fn past_max_hands_out_nothing() {
    let mut sequencer = Sequencer::new(10, 5, 3);
    assert_eq!(sequencer.next(), None);
    assert_eq!(sequencer.current(), 10);
    assert_eq!(sequencer.free(), 0);
    assert_eq!(Sequencer::new(10, 5, 3).last(), None);
}

#[test]
fn values_form_a_progression_up_to_max() {
    let mut sequencer = Sequencer::new(3, 4, 20);
    let mut seen = Vec::new();
    while let Some(v) = sequencer.next() {
        seen.push(v);
    }
    assert_eq!(seen, vec![3, 7, 11, 15, 19]);
    assert_eq!(sequencer.current(), 23);
    // The last value is the largest of the progression not past `max`.
    assert_eq!(Sequencer::new(3, 4, 20).last(), Some(19));
    assert_eq!(Sequencer::new(3, 4, 19).last(), Some(19));
    assert_eq!(Sequencer::new(3, 4, 3).last(), Some(3));
}

#[test]
fn last_near_the_top_of_u32() {
    let max = u32::MAX - 10;
    assert_eq!(Sequencer::new(max - 5, 5, max).last(), Some(max));
}

#[test]
fn none_forever_after_the_last_value() {
    let mut sequencer = Sequencer::new(1, 2, 6);
    let mut seen = Vec::new();
    for _ in 0..6 {
        seen.push(sequencer.next());
    }
    assert_eq!(seen, vec![Some(1), Some(3), Some(5), None, None, None]);
    assert_eq!((sequencer.step(), sequencer.max_id()), (2, 6));
}
