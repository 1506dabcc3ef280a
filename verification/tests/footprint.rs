use diskpine::commands::trace_foot_size::{
    convert_to_str, footprint_and_volume, read_trace, trace_foot_size, update_min_max,
    BitMapWrite, SIZE_LIMIT,
};
use diskpine::commands::Pine;
use diskpine::error::HMSimError;
use diskpine::record::{Direction, Request};

fn lines(text: &[&str]) -> Vec<String> {
    text.iter().map(|line| line.to_string()).collect()
}

fn write(offset: u64, length: u64) -> Request {
    Request { direction: Direction::Write, offset, length }
}

fn read(offset: u64, length: u64) -> Request {
    Request { direction: Direction::Read, offset, length }
}

fn shown(sectors: u64) -> String {
    let suffix = ["KB", "MB", "GB", "TB", "PB"];
    let mut value = sectors as f64 / 2.0;
    let mut unit = 0;
    while value >= 512.0 {
        value /= 1024.0;
        unit += 1;
    }
    format!("{:.2}{}", value, suffix[unit])
}

#[test]
fn test_convert_to_str() {
    let footprint = 1424000;
    let volume = 208777;
    let texts = convert_to_str(footprint, volume);
    println!("{:?}", texts);
    assert_eq!(texts, ("0.68GB".to_string(), "101.94MB".to_string()));
}

#[test]
fn test() {
    let trace = lines(&["W Hit 0 10 0.000000 0.000000", "W Hit 5 10 0.000000 0.000000"]);
    let res = trace_foot_size(&trace).unwrap();
    println!("{:?}", res);
    assert_eq!(res, ("7.50KB".to_string(), "10.00KB".to_string()));
}

#[test]
fn overlapping_writes_count_once() {
    let trace = lines(&["W Hit 0 10 0.000000 0.000000", "W Hit 5 10 0.000000 0.000000"]);
    let records = read_trace(&trace).unwrap();
    assert_eq!(records, vec![write(0, 10), write(5, 10)]);
    assert_eq!(footprint_and_volume(&records), Ok((15, 20)));
}

#[test]
fn footprint_never_exceeds_volume() {
    let records = vec![write(0, 100), read(0, 500), write(50, 100), write(1000, 1), read(7, 7)];
    let (footprint, volume) = footprint_and_volume(&records).unwrap();
    assert_eq!((footprint, volume), (151, 708));
    assert!(footprint <= volume);
}

#[test]
fn writes_apart_count_in_full() {
    let records = vec![write(100, 50), write(0, 100), write(150, 1), write(1000, 64)];
    assert_eq!(footprint_and_volume(&records), Ok((215, 215)));
}

#[test]
fn a_write_of_what_is_written_adds_nothing() {
    let once = vec![write(64, 128)];
    let twice = vec![write(64, 128), write(64, 128)];
    let inside = vec![write(64, 128), write(100, 10)];
    assert_eq!(footprint_and_volume(&once), Ok((128, 128)));
    assert_eq!(footprint_and_volume(&twice), Ok((128, 256)));
    assert_eq!(footprint_and_volume(&inside), Ok((128, 138)));
}

#[test]
fn reads_count_for_the_volume_only() {
    let records = vec![read(0, 100), read(5000, 3)];
    assert_eq!(footprint_and_volume(&records), Ok((0, 103)));
    assert_eq!(footprint_and_volume(&Vec::new()), Ok((0, 0)));
}

#[test]
fn analysis_of_the_same_trace_is_the_same() {
    let trace = lines(&[
        "W Hit 0 2048 0.000000 0.000000",
        "R Hit 8 16 0.000000 0.123456",
        "W Hit 1024 2048 0.000000 0.000000",
    ]);
    let first = trace_foot_size(&trace);
    let second = trace_foot_size(&trace);
    assert_eq!(first, second);
    assert_eq!(first, Ok(("1.50MB".to_string(), "2.01MB".to_string())));
    assert_eq!(trace.len(), 3);
}

#[test]
fn malformed_lines_fail_the_analysis() {
    let good = "W Hit 0 10 0.000000 0.000000";
    for bad in [
        "",
        "W Hit 0 10 0.000000",
        "W Hit 0 10 0.000000 0.000000 extra",
        "W Hit x 10 0.000000 0.000000",
        "W Hit 0 -10 0.000000 0.000000",
        "W Hit 0 1.5 0.000000 0.000000",
        "W Hit  10 0.000000 0.000000",
        "X Hit 0 10 0.000000 0.000000",
        "w Hit 0 10 0.000000 0.000000",
        "W Hit 0 18446744073709551616 0.000000 0.000000",
        "W  Hit 0 10 0.000000 0.000000",
    ] {
        assert_eq!(
            trace_foot_size(&lines(&[good, bad, good])),
            Err(HMSimError::ParseError),
            "{:?}",
            bad
        );
        assert_eq!(read_trace(&lines(&[bad])), Err(HMSimError::ParseError));
    }
}

#[test]
fn traces_that_cannot_be_counted() {
    let beyond = vec![write(u64::MAX, 1)];
    assert_eq!(footprint_and_volume(&beyond), Err(HMSimError::ParseError));
    let heavy = vec![read(0, u64::MAX), read(0, 1)];
    assert_eq!(footprint_and_volume(&heavy), Err(HMSimError::ParseError));
    let large = lines(&["R Hit 0 1125899906842624 0.000000 0.000000"]);
    assert_eq!(trace_foot_size(&large), Err(HMSimError::ParseError));
    let fits = lines(&["R Hit 0 1125899906842623 0.000000 0.000000"]);
    assert_eq!(trace_foot_size(&fits), Ok(("0.00KB".to_string(), "512.00PB".to_string())));
}

#[test]
fn sizes_are_shown_as_floating_point_shows_them() {
    let mut samples: Vec<u64> = (0..6000).collect();
    for shift in 0..50 {
        let power = 1u64 << shift;
        for near in [power - 1, power, power + 1, power + power / 2, 3 * power - 1] {
            samples.push(near);
        }
    }
    for step in 0..4000u64 {
        samples.push(1280 + 512 * step);
        samples.push((step * 2654435761) % SIZE_LIMIT);
        samples.push((step * 0x9E37_79B9_7F4A_7C15) % SIZE_LIMIT);
        samples.push(256 * (2 * step + 1) * 1024);
    }
    for sectors in samples {
        if sectors < SIZE_LIMIT {
            let texts = convert_to_str(sectors, sectors);
            assert_eq!(texts.0, shown(sectors), "{}", sectors);
            assert_eq!(texts.1, texts.0);
        }
    }
}

#[test]
fn sizes_in_each_unit() {
    assert_eq!(convert_to_str(0, 1).0, "0.00KB");
    assert_eq!(convert_to_str(0, 1).1, "0.50KB");
    assert_eq!(convert_to_str(1023, 1024).0, "511.50KB");
    assert_eq!(convert_to_str(1023, 1024).1, "0.50MB");
    assert_eq!(convert_to_str(1280, 3328).0, "0.62MB");
    assert_eq!(convert_to_str(1280, 3328).1, "1.62MB");
    assert_eq!(convert_to_str(1 << 20, 1 << 30).0, "0.50GB");
    assert_eq!(convert_to_str(1 << 20, 1 << 30).1, "0.50TB");
    assert_eq!(convert_to_str(1 << 40, SIZE_LIMIT - 1).0, "0.50PB");
    assert_eq!(convert_to_str(1 << 40, SIZE_LIMIT - 1).1, "512.00PB");
    assert_eq!(convert_to_str(1048575, 1048575).0, "512.00MB");
}

#[test]
fn bits_are_set_once_and_stay_set() {
    let mut bitmap = BitMapWrite::new(200);
    for index in [0u64, 63, 64, 199] {
        assert!(!bitmap.test_bit(index));
        assert!(bitmap.set_bit(index));
        assert!(bitmap.test_bit(index));
    }
    assert!(bitmap.set_bit(63));
    for index in 0..200u64 {
        assert_eq!(bitmap.test_bit(index), [0, 63, 64, 199].contains(&index), "{}", index);
    }
    let empty = BitMapWrite::new(0);
    assert!(!empty.test_bit(0));
}

#[test]
fn lowest_and_highest_offset() {
    let mut min_index = u64::MAX;
    let mut max_index = 0;
    for offset in [40u64, 7, 900, 7, 41] {
        update_min_max(&mut min_index, &mut max_index, offset);
    }
    assert_eq!((min_index, max_index), (7, 900));
}

#[test]
fn pine_shows_the_sizes_of_a_trace() {
    let trace = lines(&["W Hit 0 10 0.000000 0.000000", "W Hit 5 10 0.000000 0.000000"]);
    assert_eq!(
        Pine.trace_foot_size("a.trace", &trace),
        Ok("tracefile: a.trace\nfootprint:  7.50KB\nvolume:    10.00KB".to_string())
    );
    let wide = lines(&["W Hit 0 1000000 0.000000 0.000000", "R Hit 0 47000 0.000000 0.000000"]);
    assert_eq!(
        Pine.trace_foot_size("b", &wide),
        Ok("tracefile: b\nfootprint: 488.28MB\nvolume:   511.23MB".to_string())
    );
    assert_eq!(Pine.trace_foot_size("c", &lines(&["nothing"])), Err(HMSimError::ParseError));
}
