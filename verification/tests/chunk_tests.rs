use audio_spectrum::chunk::{first_channel, ChunkProgress, ChunkReader, SampleEvent, CHUNK_SIZE};

fn read(events: Vec<SampleEvent<i16>>) -> Option<Option<Vec<i16>>> {
    let mut reader = ChunkReader::new();
    for ev in events {
        match reader.feed(ev) {
            ChunkProgress::Reading(r) => reader = r,
            ChunkProgress::Done(out) => return Some(out),
        }
    }
    None
}

#[test]
fn full_chunk_is_handed_out_at_chunk_size() {
    let events: Vec<SampleEvent<i16>> = (0..CHUNK_SIZE + 10).map(|i| SampleEvent::Sample(i as i16)).collect();
    let out = read(events).unwrap().unwrap();
    assert_eq!(out.len(), CHUNK_SIZE);
    assert_eq!(out[0], 0);
    assert_eq!(out[CHUNK_SIZE - 1], (CHUNK_SIZE - 1) as i16);
}

#[test]
fn failure_discards_samples() {
    let events = vec![SampleEvent::Sample(1), SampleEvent::Sample(2), SampleEvent::Failed];
    assert_eq!(read(events), Some(None));
}

#[test]
fn end_of_source_yields_partial_chunk() {
    let events = vec![SampleEvent::Sample(5), SampleEvent::Sample(-7), SampleEvent::Exhausted];
    assert_eq!(read(events), Some(Some(vec![5, -7])));
}

#[test]
fn end_of_source_with_nothing_read_yields_none() {
    let events: Vec<SampleEvent<i16>> = vec![SampleEvent::Exhausted];
    assert_eq!(read(events), Some(None));
}

#[test]
fn reader_keeps_reading_below_chunk_size() {
    let reader: ChunkReader<f32> = ChunkReader::new();
    match reader.feed(SampleEvent::Sample(0.5)) {
        ChunkProgress::Reading(r) => assert_eq!(r.len(), 1),
        ChunkProgress::Done(_) => panic!("chunk ended after one sample"),
    }
}

#[test]
fn first_channel_of_stereo() {
    let data = [1, 2, 3, 4, 5, 6, 7];
    assert_eq!(first_channel(&data, 2), vec![1, 3, 5]);
}

#[test]
fn first_channel_of_mono_is_everything() {
    let data = [9u16, 8, 7];
    assert_eq!(first_channel(&data, 1), vec![9, 8, 7]);
}

#[test]
fn first_channel_drops_incomplete_frame() {
    let data = [1, 2];
    assert_eq!(first_channel(&data, 3), Vec::<i32>::new());
}

#[test]
fn successive_reads_cover_the_source() {
    let source: Vec<i16> = (0..10000).map(|i| (i % 3000) as i16).collect();
    let mut pos = 0usize;
    let mut chunks: Vec<Vec<i16>> = Vec::new();
    loop {
        let mut reader = ChunkReader::new();
        let out = loop {
            let ev = if pos < source.len() {
                pos += 1;
                SampleEvent::Sample(source[pos - 1])
            } else {
                SampleEvent::Exhausted
            };
            match reader.feed(ev) {
                ChunkProgress::Reading(r) => reader = r,
                ChunkProgress::Done(out) => break out,
            }
        };
        match out {
            Some(c) => chunks.push(c),
            None => break,
        }
    }
    let lens: Vec<usize> = chunks.iter().map(|c| c.len()).collect();
    assert_eq!(lens, vec![CHUNK_SIZE, CHUNK_SIZE, 10000 - 2 * CHUNK_SIZE]);
    assert_eq!(chunks.concat(), source);
}
