use analog_synth::delay_line::DelayLine;

#[test]
fn delay_line_starts_silent() {
    let line = DelayLine::new(4, 0i32);
    assert_eq!(line.len(), 4);
    for d in 0..6 {
        assert_eq!(line.read(d), 0);
    }
}

#[test]
fn delay_line_reads_past_writes() {
    let mut line = DelayLine::new(4, 0i32);
    line.write(1);
    line.write(2);
    line.write(3);
    assert_eq!(line.read(1), 3);
    assert_eq!(line.read(2), 2);
    assert_eq!(line.read(3), 1);
    // a delay of 0 reads the oldest sample held
    assert_eq!(line.read(0), 0);
    // delays past the length are capped
    assert_eq!(line.read(10), 1);
}

#[test]
fn delay_line_wraps_around() {
    let mut line = DelayLine::new(3, 0i32);
    for x in 1..=7 {
        line.write(x);
    }
    assert_eq!(line.read(1), 7);
    assert_eq!(line.read(2), 6);
    assert_eq!(line.read(0), 5);
}

#[test]
fn delay_line_of_one_sample() {
    let mut line = DelayLine::new(1, 0i32);
    line.write(9);
    assert_eq!(line.read(0), 9);
    assert_eq!(line.read(5), 9);
}
