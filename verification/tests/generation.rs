use diskpine::commands::generate_tape_trace::{
    band_for, consume, direction_mode_of, generate_tape_trace, generate_tape_trace_with,
    generate_weighted_random_number, idle_step, sampled_length, AddressCursor, AddressOrder,
    DirectionMode, GeneratedTrace, TapeTrace,
};
use diskpine::commands::Pine;
use diskpine::error::HMSimError;
use diskpine::record::{Direction, Dist, Request};
use diskpine::utils::command_gen_tape_trace_to_tape_trace_struct;
use diskpine::HMSimBlock;
use rand::rngs::StdRng;
use rand::SeedableRng;
use std::cell::Cell;

fn sectors(block: u64) -> HMSimBlock {
    HMSimBlock { size_in_string: String::new(), byte: block * 512, block }
}

fn configuration(
    total: u64,
    block: u64,
    write: Option<(u64, u64)>,
    read: Option<(u64, u64)>,
    batch: Option<&str>,
    batch_write: Option<(u64, u64)>,
    batch_read: Option<(u64, u64)>,
) -> TapeTrace {
    command_gen_tape_trace_to_tape_trace_struct(
        sectors(total),
        sectors(block),
        write,
        read,
        None,
        batch.map(|letters| letters.to_string()),
        batch_write,
        batch_read,
    )
    .unwrap()
}

fn flat(generated: &GeneratedTrace) -> Vec<Request> {
    generated.batches.iter().flatten().copied().collect()
}

fn check_run(trace: &TapeTrace, generated: &GeneratedTrace) {
    let requests = flat(generated);
    let total: u128 = requests.iter().map(|r| r.length as u128).sum();
    assert!(total >= trace.total_size as u128);
    let mut before_last: u128 = 0;
    for batch in &generated.batches[..generated.batches.len().saturating_sub(1)] {
        before_last += batch.iter().map(|r| r.length as u128).sum::<u128>();
    }
    if !generated.batches.is_empty() {
        assert!(before_last < trace.total_size as u128);
    }
    let mut frontier = trace.initial_frontier;
    let mut read_frontier = 0u64;
    for request in &requests {
        assert!(request.offset as u128 + request.length as u128 <= trace.total_size as u128);
        match request.direction {
            Direction::Write => {
                assert_eq!(request.offset, frontier);
                assert_eq!(request.offset % trace.block_size, 0);
                frontier += request.length;
            }
            Direction::Read => {
                assert!(frontier > 0);
                match trace.read_order {
                    AddressOrder::Random => {
                        assert_eq!(request.offset % trace.block_size, 0);
                        assert!(request.offset + request.length <= frontier);
                        assert!(request.length >= 1);
                    }
                    AddressOrder::Sequential => {
                        assert_eq!(request.offset, read_frontier);
                        read_frontier += request.length;
                    }
                }
            }
        }
    }
    let reads: Vec<&Request> =
        requests.iter().filter(|r| r.direction == Direction::Read).collect();
    let writes: Vec<&Request> =
        requests.iter().filter(|r| r.direction == Direction::Write).collect();
    assert_eq!(generated.op_read, reads.len() as u64);
    assert_eq!(generated.op_write, writes.len() as u64);
    assert_eq!(generated.read_data, reads.iter().map(|r| r.length).sum::<u64>());
    assert_eq!(generated.write_data, writes.iter().map(|r| r.length).sum::<u64>());
}

#[test]
fn test_generate_tape_trace() {
    let trace = configuration(2048, 8, Some((1, 1)), None, None, None, None);
    let mut rng = StdRng::seed_from_u64(1);
    let generated = generate_tape_trace(trace.clone(), &mut rng).unwrap();
    let requests = flat(&generated);
    assert_eq!(requests.len(), 256);
    for (i, request) in requests.iter().enumerate() {
        assert_eq!(
            *request,
            Request { direction: Direction::Write, offset: 8 * i as u64, length: 8 }
        );
    }
    assert_eq!(generated.op_write, 256);
    assert_eq!(generated.op_read, 0);
    assert_eq!(generated.write_data, 2048);
    assert_eq!(generated.read_data, 0);
    check_run(&trace, &generated);
}

#[test]
fn write_only_run_covers_the_address_space_without_gaps() {
    let trace = configuration(4096, 8, Some((1, 16)), None, None, None, None);
    for seed in 0..20 {
        let mut rng = StdRng::seed_from_u64(seed);
        let generated = generate_tape_trace(trace.clone(), &mut rng).unwrap();
        let requests = flat(&generated);
        let mut next = 0;
        for request in &requests {
            assert_eq!(request.direction, Direction::Write);
            assert_eq!(request.offset, next);
            assert!(request.length >= 8 && request.length <= 128);
            next += request.length;
        }
        assert_eq!(next, 4096);
        check_run(&trace, &generated);
    }
}

#[test]
fn sizes_are_drawn_and_not_handed_back() {
    let trace = configuration(1 << 20, 8, Some((1, 64)), None, None, None, None);
    let mut rng = StdRng::seed_from_u64(7);
    let generated = generate_tape_trace(trace.clone(), &mut rng).unwrap();
    let requests = flat(&generated);
    let mut lengths: Vec<u64> = requests.iter().map(|r| r.length).collect();
    lengths.sort();
    lengths.dedup();
    assert!(lengths.len() > 10);
    assert!(lengths.iter().all(|length| length % 8 == 0 && *length >= 8 && *length <= 512));
}

#[test]
fn mixed_run_reads_only_what_is_written() {
    let trace = configuration(1 << 16, 8, Some((1, 32)), Some((1, 64)), None, None, None);
    assert_eq!(trace.direction_mode(), DirectionMode::Mixed);
    let mut reads = 0;
    let mut writes = 0;
    for seed in 0..20 {
        let mut rng = StdRng::seed_from_u64(seed);
        let generated = generate_tape_trace(trace.clone(), &mut rng).unwrap();
        check_run(&trace, &generated);
        assert_eq!(generated.batches[0][0].direction, Direction::Write);
        reads += generated.op_read;
        writes += generated.op_write;
    }
    assert!(reads > 0 && writes > 0);
}

#[test]
fn mixed_run_with_sequential_reads() {
    let mut trace = configuration(1 << 14, 8, Some((1, 8)), Some((1, 8)), None, None, None);
    trace.read_order = AddressOrder::Sequential;
    for seed in 0..10 {
        let mut rng = StdRng::seed_from_u64(seed);
        let generated = generate_tape_trace(trace.clone(), &mut rng).unwrap();
        check_run(&trace, &generated);
    }
}

#[test]
fn batches_of_three_writes() {
    let trace =
        configuration(1 << 14, 8, Some((1, 4)), Some((1, 4)), Some("w"), Some((3, 3)), None);
    for seed in 0..10 {
        let mut rng = StdRng::seed_from_u64(seed);
        let generated = generate_tape_trace(trace.clone(), &mut rng).unwrap();
        check_run(&trace, &generated);
        let mut write_batches = 0;
        for batch in &generated.batches {
            let direction = batch[0].direction;
            assert!(batch.iter().all(|r| r.direction == direction));
            match direction {
                Direction::Write => {
                    assert_eq!(batch.len(), 3);
                    write_batches += 1;
                }
                Direction::Read => assert_eq!(batch.len(), 1),
            }
        }
        assert!(write_batches > 0);
        let requests = flat(&generated);
        let mut run = 0;
        for request in &requests {
            if request.direction == Direction::Write {
                run += 1;
            } else {
                assert_eq!(run % 3, 0);
                run = 0;
            }
        }
        assert_eq!(run % 3, 0);
    }
}

#[test]
fn batches_of_reads_and_writes() {
    let trace = configuration(
        1 << 14,
        8,
        Some((1, 4)),
        Some((2, 6)),
        Some("rw"),
        Some((2, 5)),
        Some((1, 3)),
    );
    assert!(trace.batching(Direction::Read));
    assert!(trace.batching(Direction::Write));
    let mut sizes = Vec::new();
    for seed in 0..10 {
        let mut rng = StdRng::seed_from_u64(seed);
        let generated = generate_tape_trace(trace.clone(), &mut rng).unwrap();
        check_run(&trace, &generated);
        for batch in &generated.batches {
            match batch[0].direction {
                Direction::Write => assert!(batch.len() >= 2 && batch.len() <= 5),
                Direction::Read => assert!(batch.len() >= 1 && batch.len() <= 3),
            }
            sizes.push(batch.len());
        }
    }
    sizes.sort();
    sizes.dedup();
    assert!(sizes.len() > 2);
}

#[test]
fn last_batch_is_cut_at_the_end_of_the_address_space() {
    let trace = configuration(2048, 8, Some((1, 1)), None, Some("w"), Some((3, 3)), None);
    let mut rng = StdRng::seed_from_u64(3);
    let generated = generate_tape_trace(trace.clone(), &mut rng).unwrap();
    check_run(&trace, &generated);
    assert_eq!(generated.batches.len(), 86);
    let last = &generated.batches[85];
    assert_eq!(
        *last,
        vec![
            Request { direction: Direction::Write, offset: 2040, length: 8 },
            Request { direction: Direction::Write, offset: 2048, length: 0 },
            Request { direction: Direction::Write, offset: 2048, length: 0 },
        ]
    );
    assert_eq!(generated.op_write, 258);
    assert_eq!(generated.write_data, 2048);
}

#[test]
fn read_only_run_needs_something_written() {
    let mut trace = configuration(4096, 8, None, Some((1, 4)), None, None, None);
    assert_eq!(trace.direction_mode(), DirectionMode::ReadOnly);
    let mut rng = StdRng::seed_from_u64(5);
    assert_eq!(
        generate_tape_trace(trace.clone(), &mut rng).err(),
        Some(HMSimError::CommandError)
    );
    trace.initial_frontier = 1000;
    let generated = generate_tape_trace(trace.clone(), &mut rng).unwrap();
    check_run(&trace, &generated);
    assert_eq!(generated.op_write, 0);
    for request in flat(&generated) {
        assert_eq!(request.direction, Direction::Read);
        assert!(request.offset + request.length <= 1000);
    }
}

#[test]
fn configurations_that_are_refused() {
    let mut rng = StdRng::seed_from_u64(5);
    let refused = |trace: TapeTrace, rng: &mut StdRng| {
        assert!(trace.validate().is_err());
        assert_eq!(generate_tape_trace(trace, rng).err(), Some(HMSimError::CommandError));
    };
    refused(configuration(2048, 0, Some((1, 1)), None, None, None, None), &mut rng);
    refused(configuration(2050, 8, Some((1, 1)), None, None, None, None), &mut rng);
    refused(configuration(2048, 8, None, None, None, None, None), &mut rng);
    refused(configuration(2048, 8, Some((0, 1)), None, None, None, None), &mut rng);
    refused(configuration(2048, 8, Some((1, 1)), Some((0, 4)), None, None, None), &mut rng);
    refused(configuration(2048, 8, Some((1, 1)), None, Some("w"), None, None), &mut rng);
    refused(configuration(2048, 8, Some((1, 1)), None, Some("w"), Some((0, 3)), None), &mut rng);
    let mut started = configuration(2048, 8, Some((1, 1)), None, None, None, None);
    started.initial_frontier = 8;
    refused(started, &mut rng);
    let mut beyond = configuration(2048, 8, None, Some((1, 1)), None, None, None);
    beyond.initial_frontier = 4096;
    refused(beyond, &mut rng);
    let accepted = configuration(2048, 8, Some((1, 1)), None, Some("r"), None, None);
    assert_eq!(accepted.validate(), Ok(()));
}

#[test]
fn empty_budget_gives_an_empty_trace() {
    let trace = configuration(0, 8, Some((1, 1)), None, None, None, None);
    let mut rng = StdRng::seed_from_u64(5);
    let generated = generate_tape_trace(trace, &mut rng).unwrap();
    assert!(generated.batches.is_empty());
    assert_eq!(
        (generated.op_read, generated.op_write, generated.read_data, generated.write_data),
        (0, 0, 0, 0)
    );
}

#[test]
fn pine_runs_the_generation() {
    let trace = configuration(1024, 8, Some((2, 2)), None, None, None, None);
    let mut rng = StdRng::seed_from_u64(11);
    let generated = Pine.generate_tape_trace(trace, &mut rng).unwrap();
    assert_eq!(generated.op_write, 64);
    assert_eq!(Pine.generate_trace(), Ok(()));
}

#[test]
fn cursor_places_writes_at_the_frontier() {
    let mut cursor = AddressCursor::new(100, 8, 0);
    assert_eq!(cursor.clip_write(24), 24);
    assert_eq!(cursor.advance_write(24), 0);
    assert_eq!(cursor.write_frontier, 24);
    let request = cursor.place(AddressOrder::Random, Direction::Write, 2, 0);
    assert_eq!(request, Request { direction: Direction::Write, offset: 24, length: 16 });
    assert_eq!(cursor.write_frontier, 40);
    let request = cursor.place(AddressOrder::Random, Direction::Write, 10, 0);
    assert_eq!(request, Request { direction: Direction::Write, offset: 40, length: 60 });
    assert_eq!(cursor.write_frontier, 100);
    assert_eq!(cursor.clip_write(8), 0);
    let request = cursor.place(AddressOrder::Random, Direction::Write, u64::MAX, 0);
    assert_eq!(request, Request { direction: Direction::Write, offset: 100, length: 0 });
}

#[test]
fn cursor_places_reads() {
    let mut cursor = AddressCursor::new(1000, 8, 100);
    assert_eq!(cursor.pick_read_offset(AddressOrder::Random, 16, 37), (32, 16));
    assert_eq!(cursor.pick_read_offset(AddressOrder::Random, 16, 99), (96, 4));
    assert_eq!(cursor.pick_read_offset(AddressOrder::Random, 500, 0), (0, 100));
    assert_eq!(cursor.read_frontier, 0);
    assert_eq!(cursor.pick_read_offset(AddressOrder::Sequential, 600, 0), (0, 600));
    assert_eq!(cursor.pick_read_offset(AddressOrder::Sequential, 600, 0), (600, 400));
    assert_eq!(cursor.pick_read_offset(AddressOrder::Sequential, 600, 0), (1000, 0));
    assert_eq!(cursor.read_frontier, 1000);
    assert_eq!(cursor.write_frontier, 100);
    let request = cursor.place(AddressOrder::Random, Direction::Read, u64::MAX, 50);
    assert_eq!(request, Request { direction: Direction::Read, offset: 48, length: 52 });
}

#[test]
fn a_read_of_nothing_written_is_no_operation() {
    let trace = configuration(1024, 8, Some((1, 1)), Some((1, 1)), None, None, None);
    let mut rng = StdRng::seed_from_u64(2);
    let mut cursor = AddressCursor::new(1024, 8, 0);
    let (requests, emitted) = trace.operation(&mut rng, Direction::Read, &mut cursor);
    assert!(requests.is_empty());
    assert_eq!(emitted, 0);
    assert_eq!(trace.choose_direction(&mut rng, &cursor), Direction::Write);
    let (requests, emitted) = trace.operation(&mut rng, Direction::Write, &mut cursor);
    assert_eq!(requests, vec![Request { direction: Direction::Write, offset: 0, length: 8 }]);
    assert_eq!(emitted, 8);
    let one = trace.generate_one(&mut rng, Direction::Read, &mut cursor);
    assert_eq!(one, Request { direction: Direction::Read, offset: 0, length: 8 });
}

#[test]
fn blank_configuration() {
    let trace = TapeTrace::new();
    assert_eq!(trace.total_size, 0);
    assert_eq!(trace.block_size, 0);
    assert_eq!(trace.batch, "");
    assert_eq!(trace.dist, Dist::Unset);
    assert_eq!(trace.length_dist, Dist::Unset);
    assert_eq!(trace.read_order, AddressOrder::Random);
    assert_eq!(trace.direction_mode(), DirectionMode::WriteOnly);
    assert!(!trace.batching(Direction::Read));
}

#[test]
fn configuration_from_arguments() {
    let trace = configuration(
        2048,
        8,
        Some((1, 4)),
        Some((2, 9)),
        Some("rw"),
        Some((3, 5)),
        Some((6, 6)),
    );
    assert_eq!((trace.total_size, trace.block_size), (2048, 8));
    assert_eq!(
        (trace.write_size_start, trace.write_size_end, trace.write_size_range),
        (1, 4, 3)
    );
    assert_eq!((trace.read_size_start, trace.read_size_end, trace.read_size_range), (2, 9, 7));
    assert_eq!((trace.rwsize_start, trace.rwsize_end, trace.rwsize_range), (0, 0, 0));
    assert_eq!(
        (trace.batch_iow_num_begin, trace.batch_iow_num_end, trace.batch_iow_num_range),
        (3, 5, 2)
    );
    assert_eq!(
        (trace.batch_ior_num_begin, trace.batch_ior_num_end, trace.batch_ior_num_range),
        (6, 6, 0)
    );
    assert_eq!(trace.batch, "rw");
    let kept = configuration(2048, 8, Some((1, 4)), None, Some("w"), Some((3, 5)), None);
    assert_eq!((kept.batch_iow_num_begin, kept.batch_iow_num_end), (3, 5));
    assert_eq!((kept.batch_ior_num_begin, kept.batch_ior_num_end), (0, 0));
    let refused = command_gen_tape_trace_to_tape_trace_struct(
        sectors(2048),
        sectors(8),
        Some((4, 1)),
        None,
        None,
        None,
        None,
        None,
    );
    assert_eq!(refused.err(), Some(HMSimError::CommandError));
    let with_both = command_gen_tape_trace_to_tape_trace_struct(
        sectors(2048),
        sectors(8),
        None,
        None,
        Some((7, 9)),
        None,
        None,
        None,
    )
    .unwrap();
    assert_eq!((with_both.rwsize_start, with_both.rwsize_end, with_both.rwsize_range), (7, 9, 2));
}

#[test]
fn modes_are_named_by_letters() {
    assert_eq!(direction_mode_of("r"), Ok(DirectionMode::ReadOnly));
    assert_eq!(direction_mode_of("w"), Ok(DirectionMode::WriteOnly));
    assert_eq!(direction_mode_of("rw"), Ok(DirectionMode::Mixed));
    for letters in ["", "x", "wr", "R", "rww", "r ", "read"] {
        assert_eq!(direction_mode_of(letters), Err(HMSimError::CommandError), "{:?}", letters);
    }
}

#[test]
fn a_configuration_is_restricted_to_a_mode() {
    let both = configuration(2048, 8, Some((1, 4)), Some((2, 9)), None, None, None);
    let mut trace = both.clone();
    assert_eq!(trace.restrict_to(DirectionMode::Mixed), Ok(()));
    assert_eq!(trace.direction_mode(), DirectionMode::Mixed);
    assert_eq!((trace.write_size_end, trace.read_size_end), (4, 9));
    let mut trace = both.clone();
    assert_eq!(trace.restrict_to(DirectionMode::WriteOnly), Ok(()));
    assert_eq!(trace.direction_mode(), DirectionMode::WriteOnly);
    assert_eq!((trace.read_size_start, trace.read_size_end, trace.read_size_range), (0, 0, 0));
    assert_eq!((trace.write_size_start, trace.write_size_end, trace.write_size_range), (1, 4, 3));
    let mut trace = both.clone();
    assert_eq!(trace.restrict_to(DirectionMode::ReadOnly), Ok(()));
    assert_eq!(trace.direction_mode(), DirectionMode::ReadOnly);
    assert_eq!((trace.write_size_start, trace.write_size_end, trace.write_size_range), (0, 0, 0));
    assert_eq!((trace.read_size_start, trace.read_size_end, trace.read_size_range), (2, 9, 7));
    let mut writes = configuration(2048, 8, Some((1, 4)), None, None, None, None);
    assert_eq!(writes.restrict_to(DirectionMode::Mixed), Err(HMSimError::CommandError));
    assert_eq!(writes.restrict_to(DirectionMode::ReadOnly), Err(HMSimError::CommandError));
    assert_eq!((writes.write_size_start, writes.write_size_end), (1, 4));
    assert_eq!(writes.restrict_to(DirectionMode::WriteOnly), Ok(()));
    let mut reads = configuration(2048, 8, None, Some((1, 4)), None, None, None);
    assert_eq!(reads.restrict_to(DirectionMode::WriteOnly), Err(HMSimError::CommandError));
    assert_eq!(reads.restrict_to(DirectionMode::ReadOnly), Ok(()));
}

#[test]
fn samples_are_cut_to_whole_blocks() {
    assert_eq!(sampled_length(100, 8), 96);
    assert_eq!(sampled_length(96, 8), 96);
    assert_eq!(sampled_length(7, 8), 0);
    assert_eq!(sampled_length(0, 8), 0);
    assert_eq!(sampled_length(u64::MAX, 1), u64::MAX);
    assert_eq!(sampled_length(u64::MAX, 512), u64::MAX - 511);
}

#[test]
fn the_budget_stops_at_nothing() {
    assert_eq!(consume(100, 30), 70);
    assert_eq!(consume(100, 100), 0);
    assert_eq!(consume(100, 101), 0);
    assert_eq!(consume(0, 0), 0);
    assert_eq!(consume(u64::MAX, u64::MAX), 0);
    assert_eq!(consume(5, 0), 5);
}

#[test]
fn requests_of_sampled_lengths() {
    let mut trace = configuration(1024, 8, Some((1, 1)), Some((1, 1)), None, None, None);
    trace.length_dist = Dist::Exponential;
    let mut rng = StdRng::seed_from_u64(21);
    let mut cursor = AddressCursor::new(1024, 8, 0);
    assert_eq!(trace.generate_sampled(&mut rng, Direction::Write, &mut cursor, 7), None);
    assert_eq!(trace.generate_sampled(&mut rng, Direction::Read, &mut cursor, 100), None);
    assert_eq!(cursor, AddressCursor::new(1024, 8, 0));
    assert_eq!(
        trace.generate_sampled(&mut rng, Direction::Write, &mut cursor, 100),
        Some(Request { direction: Direction::Write, offset: 0, length: 96 })
    );
    assert_eq!(
        trace.generate_sampled(&mut rng, Direction::Write, &mut cursor, 5000),
        Some(Request { direction: Direction::Write, offset: 96, length: 928 })
    );
    assert_eq!(cursor.write_frontier, 1024);
    for _ in 0..50 {
        let request =
            trace.generate_sampled(&mut rng, Direction::Read, &mut cursor, 20).unwrap();
        assert_eq!(request.direction, Direction::Read);
        assert_eq!(request.offset % 8, 0);
        assert_eq!(request.length, 16);
        assert!(request.offset + request.length <= 1024);
    }
    assert_eq!(trace.generate_sampled(&mut rng, Direction::Read, &mut cursor, 3), None);
}

#[test]
fn the_size_of_a_batch() {
    let trace =
        configuration(1024, 8, Some((1, 1)), Some((1, 1)), Some("w"), Some((2, 6)), None);
    let mut rng = StdRng::seed_from_u64(4);
    let empty = AddressCursor::new(1024, 8, 0);
    let written = AddressCursor::new(1024, 8, 8);
    assert_eq!(trace.batch_size(&mut rng, Direction::Read, &empty), 0);
    assert_eq!(trace.batch_size(&mut rng, Direction::Read, &written), 1);
    let mut sizes = Vec::new();
    for _ in 0..200 {
        let size = trace.batch_size(&mut rng, Direction::Write, &empty);
        assert!(size >= 2 && size <= 6);
        sizes.push(size);
    }
    sizes.sort();
    sizes.dedup();
    assert_eq!(sizes, vec![2, 3, 4, 5, 6]);
}

#[test]
fn the_direction_of_a_batch() {
    let mixed = configuration(1024, 8, Some((1, 1)), Some((1, 1)), None, None, None);
    let writes = configuration(1024, 8, Some((1, 1)), None, None, None, None);
    let reads = configuration(1024, 8, None, Some((1, 1)), None, None, None);
    let empty = AddressCursor::new(1024, 8, 0);
    let written = AddressCursor::new(1024, 8, 8);
    assert_eq!(mixed.direction_for(&empty, 0), Direction::Write);
    assert_eq!(mixed.direction_for(&empty, 1), Direction::Write);
    assert_eq!(mixed.direction_for(&written, 0), Direction::Read);
    assert_eq!(mixed.direction_for(&written, 1), Direction::Write);
    assert_eq!(writes.direction_for(&written, 0), Direction::Write);
    assert_eq!(reads.direction_for(&written, 1), Direction::Read);
    let mut rng = StdRng::seed_from_u64(8);
    let mut count = [0, 0];
    for _ in 0..400 {
        match mixed.choose_direction(&mut rng, &written) {
            Direction::Read => count[0] += 1,
            Direction::Write => count[1] += 1,
        }
        assert_eq!(mixed.choose_direction(&mut rng, &empty), Direction::Write);
    }
    assert!(count[0] > 100 && count[1] > 100);
}

#[test]
fn sizes_that_favour_the_small() {
    assert_eq!(band_for(0, 10, 3), (10, 15));
    assert_eq!(band_for(3, 10, 3), (10, 15));
    assert_eq!(band_for(4, 10, 3), (16, 21));
    assert_eq!(band_for(6, 10, 3), (16, 21));
    assert_eq!(band_for(7, 10, 3), (22, 30));
    assert_eq!(band_for(8, 10, 3), (22, 30));
    assert_eq!(band_for(9, 10, 3), (31, 40));
    assert_eq!(band_for(10, 10, 3), (31, 40));
    let mut rng = StdRng::seed_from_u64(13);
    let mut seen = [false; 4];
    for _ in 0..500 {
        let number = generate_weighted_random_number(&mut rng, 10, 42);
        assert!(number >= 10 && number <= 40);
        seen[match number {
            10..=15 => 0,
            16..=21 => 1,
            22..=30 => 2,
            _ => 3,
        }] = true;
    }
    assert_eq!(seen, [true; 4]);
}

fn sampled(mut trace: TapeTrace) -> TapeTrace {
    trace.length_dist = Dist::Exponential;
    trace
}

#[test]
fn a_run_with_sampled_lengths() {
    let trace = sampled(configuration(1 << 14, 8, Some((1, 1)), Some((1, 1)), None, None, None));
    let turn = Cell::new(0u64);
    let sampler = || {
        turn.set(turn.get() + 1);
        (turn.get() * 37) % 200
    };
    for seed in 0..10 {
        let mut rng = StdRng::seed_from_u64(seed);
        let generated = generate_tape_trace_with(trace.clone(), &mut rng, &sampler, 5).unwrap();
        check_run(&trace, &generated);
        for batch in &generated.batches {
            assert_eq!(batch.len(), 1);
        }
        let mut lengths: Vec<u64> = flat(&generated).iter().map(|r| r.length).collect();
        lengths.sort();
        lengths.dedup();
        assert!(lengths.len() > 5);
        assert!(lengths.iter().all(|length| *length >= 1 && *length <= 192));
    }
    assert!(turn.get() > 0);
}

#[test]
fn a_write_only_run_with_sampled_lengths() {
    let trace = sampled(configuration(2048, 8, Some((1, 1)), None, None, None, None));
    let mut rng = StdRng::seed_from_u64(1);
    let generated = generate_tape_trace_with(trace.clone(), &mut rng, &|| 100, 0).unwrap();
    check_run(&trace, &generated);
    let requests = flat(&generated);
    assert_eq!(requests.len(), 22);
    for (i, request) in requests.iter().enumerate() {
        let length = if i == 21 { 32 } else { 96 };
        assert_eq!(
            *request,
            Request { direction: Direction::Write, offset: 96 * i as u64, length }
        );
    }
}

#[test]
fn batches_with_sampled_lengths() {
    let trace = sampled(configuration(
        1 << 14,
        8,
        Some((1, 1)),
        Some((1, 1)),
        Some("rw"),
        Some((4, 4)),
        Some((2, 3)),
    ));
    let turn = Cell::new(0u64);
    let sampler = || {
        turn.set(turn.get() + 1);
        if turn.get() % 3 == 0 {
            5
        } else {
            64
        }
    };
    let mut short = false;
    for seed in 0..10 {
        let mut rng = StdRng::seed_from_u64(seed);
        let generated = generate_tape_trace_with(trace.clone(), &mut rng, &sampler, 5).unwrap();
        check_run(&trace, &generated);
        for batch in &generated.batches {
            let direction = batch[0].direction;
            assert!(batch.iter().all(|r| r.direction == direction));
            match direction {
                Direction::Write => {
                    assert!(batch.len() >= 1 && batch.len() <= 4);
                    short = short || batch.len() < 4;
                }
                Direction::Read => assert!(batch.len() >= 1 && batch.len() <= 3),
            }
        }
    }
    assert!(short);
}

#[test]
fn samples_below_a_block_end_the_run() {
    let trace = sampled(configuration(2048, 8, Some((1, 1)), None, None, None, None));
    let mut rng = StdRng::seed_from_u64(1);
    let calls = Cell::new(0u64);
    let sampler = || {
        calls.set(calls.get() + 1);
        7
    };
    assert_eq!(
        generate_tape_trace_with(trace.clone(), &mut rng, &sampler, 10).err(),
        Some(HMSimError::CommandError)
    );
    assert_eq!(calls.get(), 11);
    let late = Cell::new(0u64);
    let sampler = || {
        late.set(late.get() + 1);
        if late.get() % 4 == 0 {
            4096
        } else {
            0
        }
    };
    let generated = generate_tape_trace_with(trace.clone(), &mut rng, &sampler, 3).unwrap();
    assert_eq!(
        generated.batches,
        vec![vec![Request { direction: Direction::Write, offset: 0, length: 2048 }]]
    );
    assert_eq!(
        generate_tape_trace_with(trace.clone(), &mut rng, &sampler, 2).err(),
        Some(HMSimError::CommandError)
    );
}

#[test]
fn the_two_ways_to_run() {
    let ranged = configuration(2048, 8, Some((1, 1)), None, None, None, None);
    let mut rng = StdRng::seed_from_u64(1);
    let calls = Cell::new(0u64);
    let sampler = || {
        calls.set(calls.get() + 1);
        64
    };
    let generated = generate_tape_trace_with(ranged.clone(), &mut rng, &sampler, 0).unwrap();
    assert_eq!(generated.op_write, 256);
    assert_eq!(calls.get(), 0);
    assert_eq!(
        generate_tape_trace(sampled(ranged.clone()), &mut rng).err(),
        Some(HMSimError::CommandError)
    );
    assert_eq!(
        Pine.generate_tape_trace(sampled(ranged.clone()), &mut rng).err(),
        Some(HMSimError::CommandError)
    );
    let refused = sampled(configuration(2050, 8, Some((1, 1)), None, None, None, None));
    assert_eq!(
        generate_tape_trace_with(refused, &mut rng, &sampler, 9).err(),
        Some(HMSimError::CommandError)
    );
    let unsized_writes = sampled(configuration(2048, 8, Some((0, 1)), None, None, None, None));
    assert_eq!(unsized_writes.validate(), Ok(()));
}

#[test]
fn a_batch_of_sampled_lengths() {
    let trace = sampled(configuration(
        4096,
        8,
        Some((1, 1)),
        Some((1, 1)),
        Some("w"),
        Some((5, 5)),
        None,
    ));
    let mut rng = StdRng::seed_from_u64(6);
    let mut cursor = AddressCursor::new(4096, 8, 0);
    let turn = Cell::new(0u64);
    let sampler = || {
        turn.set(turn.get() + 1);
        turn.get() * 6
    };
    let (requests, emitted) =
        trace.operation_sampled(&mut rng, Direction::Write, &mut cursor, &sampler);
    assert_eq!(
        requests,
        vec![
            Request { direction: Direction::Write, offset: 0, length: 8 },
            Request { direction: Direction::Write, offset: 8, length: 16 },
            Request { direction: Direction::Write, offset: 24, length: 24 },
            Request { direction: Direction::Write, offset: 48, length: 24 },
        ]
    );
    assert_eq!(emitted, 72);
    assert_eq!(turn.get(), 5);
    let (requests, emitted) =
        trace.operation_sampled(&mut rng, Direction::Read, &mut cursor, &sampler);
    assert_eq!(requests.len(), 1);
    assert_eq!(emitted, requests[0].length);
    assert_eq!(turn.get(), 6);
    let mut empty = AddressCursor::new(4096, 8, 0);
    let (requests, emitted) =
        trace.operation_sampled(&mut rng, Direction::Read, &mut empty, &sampler);
    assert!(requests.is_empty());
    assert_eq!(emitted, 0);
    assert_eq!(turn.get(), 6);
}

#[test]
fn batches_without_a_request_are_counted() {
    assert_eq!(idle_step(0, 3), Ok(1));
    assert_eq!(idle_step(2, 3), Ok(3));
    assert_eq!(idle_step(3, 3), Err(HMSimError::CommandError));
    assert_eq!(idle_step(4, 3), Err(HMSimError::CommandError));
    assert_eq!(idle_step(0, 0), Err(HMSimError::CommandError));
    assert_eq!(idle_step(u64::MAX - 1, u64::MAX), Ok(u64::MAX));
    assert_eq!(idle_step(u64::MAX, u64::MAX), Err(HMSimError::CommandError));
}
