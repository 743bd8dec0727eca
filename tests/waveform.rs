use analog_synth::waveform::WaveformBuffer;

#[test]
fn waveform_keeps_every_nth_sample() {
    let mut buffer = WaveformBuffer::new(10, 3);
    for x in 1..=10 {
        buffer.push(x);
    }
    assert_eq!(buffer.snapshot().into_iter().collect::<Vec<i32>>(), vec![3, 6, 9]);
}

#[test]
fn waveform_drops_oldest_when_full() {
    let mut buffer = WaveformBuffer::new(3, 2);
    for x in 1..=8 {
        buffer.push(x);
    }
    assert_eq!(buffer.len(), 3);
    assert_eq!(buffer.snapshot().into_iter().collect::<Vec<i32>>(), vec![4, 6, 8]);
}

#[test]
fn waveform_without_decimation_keeps_all() {
    let mut buffer = WaveformBuffer::new(2, 1);
    assert_eq!(buffer.len(), 0);
    buffer.push(5);
    assert_eq!(buffer.snapshot().into_iter().collect::<Vec<i32>>(), vec![5]);
    buffer.push(6);
    buffer.push(7);
    assert_eq!(buffer.snapshot().into_iter().collect::<Vec<i32>>(), vec![6, 7]);
}
