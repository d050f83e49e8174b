//! End-to-end decode scenarios: text and binary data files, timestamp
//! reconstruction, the combined container, and the revision-gated tail.
use comtrade::{
    parse_time_offset, real_time, Comtrade, ComtradeError, ComtradeParserBuilder, DataFormat,
    FormatRevision, Rational, SamplingRate,
};

fn rat_f64(r: &Rational) -> f64 {
    let m = r.num as f64 / r.den as f64;
    if r.neg {
        -m
    } else {
        m
    }
}

fn parse_cfg_dat(cfg: &str, dat: Vec<u8>) -> Result<Comtrade, ComtradeError> {
    ComtradeParserBuilder::new()
        .cfg_file(cfg.as_bytes().to_vec())
        .dat_file(dat)
        .build()
        .parse()
}

fn push_u32_le(out: &mut Vec<u8>, v: u32) {
    out.extend_from_slice(&v.to_le_bytes());
}

fn push_i16_le(out: &mut Vec<u8>, v: i16) {
    out.extend_from_slice(&v.to_le_bytes());
}

fn push_u16_le(out: &mut Vec<u8>, v: u16) {
    out.extend_from_slice(&v.to_le_bytes());
}

const BIN16_CFG: &str = "station,equipment,1999\n\
                         2,1A,1D\n\
                         1,VA,A,obj,kV,0.000361849,0,0,-32767,32767,120,1,P\n\
                         1,ST_1,,,0\n\
                         60\n\
                         1\n\
                         15360,5\n\
                         07/01/2017,15:35:41.958268\n\
                         07/01/2017,15:35:41.958333\n\
                         binary\n\
                         1\n";

fn bin16_dat() -> Vec<u8> {
    let raws: [i16; 5] = [-24980, -24572, -24054, -23426, -22791];
    let mut dat: Vec<u8> = Vec::new();
    for (i, raw) in raws.iter().enumerate() {
        push_u32_le(&mut dat, (i + 1) as u32);
        push_u32_le(&mut dat, 0xffffffff);
        push_i16_le(&mut dat, *raw);
        push_u16_le(&mut dat, 0);
    }
    dat
}

#[test]
fn rev1999_binary16_samples_and_rate_derived_times() {
    let record = parse_cfg_dat(BIN16_CFG, bin16_dat()).expect("parse failed");
    assert_eq!(record.station_name, "station");
    assert_eq!(record.recording_device_id, "equipment");
    assert_eq!(record.revision, FormatRevision::Revision1999);
    assert_eq!(record.data_format, DataFormat::Binary16);
    assert_eq!(rat_f64(&record.line_frequency), 60.0);
    assert_eq!(
        record.sampling_rates,
        vec![SamplingRate {
            rate_hz: Rational { neg: false, num: 15360, den: 1 },
            end_sample_number: 5,
        }]
    );
    assert_eq!(record.sample_numbers, vec![1, 2, 3, 4, 5]);
    assert_eq!(record.timestamps.len(), 5);
    for i in 0..5 {
        // The exact rational (i / 15360), unreduced.
        assert_eq!(
            record.timestamps[i],
            Rational { neg: false, num: i as u128, den: 15360 }
        );
        let expected = i as f64 / 15360.0;
        assert!((rat_f64(&record.timestamps[i]) - expected).abs() < 1e-15);
    }
    assert_eq!(record.start_time.date.year, 2017);
    assert_eq!(record.start_time.date.month, 1);
    assert_eq!(record.start_time.date.day, 7);
    assert_eq!(record.start_time.time.nanosecond, 958268000);
    assert_eq!(record.trigger_time.time.nanosecond, 958333000);
    assert_eq!(rat_f64(&record.timestamp_multiplication_factor), 1.0);
}

#[test]
fn rev1999_binary16_scales_raw_analog_values() {
    let record = parse_cfg_dat(BIN16_CFG, bin16_dat()).expect("parse failed");
    assert_eq!(record.analog_channels.len(), 1);
    let channel = &record.analog_channels[0];
    assert_eq!(channel.config.index, 1);
    assert_eq!(channel.config.name, "VA");
    assert_eq!(rat_f64(&channel.config.multiplier), 0.000361849);
    assert_eq!(channel.data.len(), 5);
    // -24980 * 0.000361849 + 0, exactly.
    assert_eq!(
        channel.data[0],
        Rational { neg: true, num: 24980 * 361849, den: 1_000_000_000 }
    );
    let first = rat_f64(&channel.data[0]);
    assert!((first - (-9.038988020)).abs() < 1e-9);
    assert!((first - (-9.0386)).abs() < 5e-3);
}

#[test]
fn rev1999_gating_leaves_2013_fields_unset() {
    let record = parse_cfg_dat(BIN16_CFG, bin16_dat()).expect("parse failed");
    assert_eq!(record.time_offset, None);
    assert_eq!(record.local_offset, None);
    assert_eq!(record.time_quality, None);
    assert_eq!(record.leap_second_status, None);
}

const ASCII_1991_CFG: &str = "old station,dev\n\
                              2,1A,1D\n\
                              1,IA,A,obj,A,2,1,0,-100,100,1,1,S\n\
                              1,ST_1,,,1\n\
                              50\n\
                              1\n\
                              1000,4\n\
                              12/31/1999,12:31:59.123456\n\
                              12/31/1999,12:31:59.223456\n\
                              ascii\n";

#[test]
fn rev1991_gating_keeps_defaults_and_scales_text_rows() {
    // raw * 2 + 1 for each analog sample.
    let dat = "1,,-3,0\n2,,0,1\n3,,7,0\n4,,10,1\n";
    let record = parse_cfg_dat(ASCII_1991_CFG, dat.as_bytes().to_vec()).expect("parse failed");
    assert_eq!(record.revision, FormatRevision::Revision1991);
    assert_eq!(rat_f64(&record.timestamp_multiplication_factor), 1.0);
    assert_eq!(record.time_offset, None);
    assert_eq!(record.local_offset, None);
    assert_eq!(record.time_quality, None);
    assert_eq!(record.leap_second_status, None);
    assert_eq!(record.sample_numbers, vec![1, 2, 3, 4]);
    let values: Vec<f64> = record.analog_channels[0].data.iter().map(rat_f64).collect();
    assert_eq!(values, vec![-5.0, 1.0, 15.0, 21.0]);
    assert_eq!(record.status_channels[0].data, vec![0, 1, 0, 1]);
}

#[test]
fn channel_table_lengths_match_declared_counts() {
    let dat = "1,,-3,0\n2,,0,1\n3,,7,0\n4,,10,1\n";
    let record = parse_cfg_dat(ASCII_1991_CFG, dat.as_bytes().to_vec()).expect("parse failed");
    assert_eq!(record.analog_channels.len(), 1);
    assert_eq!(record.status_channels.len(), 1);
    for c in &record.analog_channels {
        assert_eq!(c.data.len(), record.sample_numbers.len());
    }
    for c in &record.status_channels {
        assert_eq!(c.data.len(), record.sample_numbers.len());
    }
    assert_eq!(record.timestamps.len(), record.sample_numbers.len());
}

const CRITICAL_CFG: &str = "station,dev,1999\n\
                            1,1A,0D\n\
                            1,IA,A,obj,A,1,0,0,-100,100,1,1,P\n\
                            60\n\
                            0\n\
                            4\n\
                            01/01/2020,00:00:00.000001\n\
                            01/01/2020,00:00:00.000002\n\
                            ascii\n\
                            2\n";

#[test]
fn timestamp_critical_rows_scale_stored_timestamps() {
    // seconds = raw * 1e-6 * 2 in timestamp-critical mode.
    let dat = "1,1000,5\n2,3000,6\n";
    let record = parse_cfg_dat(CRITICAL_CFG, dat.as_bytes().to_vec()).expect("parse failed");
    assert_eq!(record.sampling_rates.len(), 0);
    let times: Vec<f64> = record.timestamps.iter().map(rat_f64).collect();
    assert!((times[0] - 0.002).abs() < 1e-12);
    assert!((times[1] - 0.006).abs() < 1e-12);
}

#[test]
fn timestamp_critical_row_without_timestamp_is_fatal() {
    let dat = "1,1000,5\n2,,6\n";
    let result = parse_cfg_dat(CRITICAL_CFG, dat.as_bytes().to_vec());
    assert!(result.is_err());
}

#[test]
fn real_time_uses_the_segment_rate_and_is_nondecreasing() {
    let rates = vec![
        SamplingRate { rate_hz: Rational { neg: false, num: 1000, den: 1 }, end_sample_number: 4 },
        SamplingRate { rate_hz: Rational { neg: false, num: 250, den: 1 }, end_sample_number: 8 },
    ];
    let base = Rational { neg: false, num: 1, den: 1_000_000 };
    let one = Rational { neg: false, num: 1, den: 1 };
    let mut previous: Option<f64> = None;
    for n in 1..=4u32 {
        let t = real_time(&rates, false, &base, &one, n, None).unwrap();
        let expected = (n - 1) as f64 / 1000.0;
        assert!((rat_f64(&t) - expected).abs() < 1e-15);
        if let Some(p) = previous {
            assert!(rat_f64(&t) >= p);
        }
        previous = Some(rat_f64(&t));
    }
    for n in 5..=8u32 {
        let t = real_time(&rates, false, &base, &one, n, None).unwrap();
        let expected = (n - 1) as f64 / 250.0;
        assert!((rat_f64(&t) - expected).abs() < 1e-15);
    }
    // Beyond every segment the defensive one-hertz rate applies.
    let t = real_time(&rates, false, &base, &one, 9, None).unwrap();
    assert_eq!(rat_f64(&t), 8.0);
}

#[test]
fn time_offset_compound_tokens() {
    assert_eq!(parse_time_offset("-5h30".as_bytes()).unwrap(), Some(-19800));
    assert_eq!(parse_time_offset("+10h30".as_bytes()).unwrap(), Some(37800));
    assert_eq!(parse_time_offset("-4".as_bytes()).unwrap(), Some(-14400));
    assert_eq!(parse_time_offset("0".as_bytes()).unwrap(), Some(0));
    assert_eq!(parse_time_offset("x".as_bytes()).unwrap(), None);
    assert_eq!(parse_time_offset(" X ".as_bytes()).unwrap(), None);
    assert!(parse_time_offset("nonsense".as_bytes()).is_err());
}

const REV2013_CFG: &str = "SMARTSTATION,IED123,2013\n\
                           1,1A,0D\n\
                           1,IA,A,obj,A,1,0,0,-100,100,1,1,P\n\
                           60\n\
                           1\n\
                           1200,2\n\
                           12/01/2011,17:55:30.750110\n\
                           12/01/2011,17:55:30.782610\n\
                           ascii\n\
                           1\n\
                           -5h30,-5h30\n\
                           0,0\n";

#[test]
fn rev2013_time_offsets_parse_to_seconds_west_of_utc() {
    let dat = "1,,1\n2,,2\n";
    let record = parse_cfg_dat(REV2013_CFG, dat.as_bytes().to_vec()).expect("parse failed");
    assert_eq!(record.time_offset, Some(-19800));
    assert_eq!(record.local_offset, Some(-19800));
    assert_eq!(record.time_quality, Some(comtrade::TimeQuality::ClockLocked));
    assert_eq!(
        record.leap_second_status,
        Some(comtrade::LeapSecondStatus::NotPresent)
    );
}

#[test]
fn binary_status_words_unpack_least_significant_bit_first() {
    // 20 status channels need two 16-bit words per record.
    let mut cfg = String::from("station,dev,1999\n21,1A,20D\n");
    cfg.push_str("1,IA,A,obj,A,1,0,0,-100,100,1,1,P\n");
    for i in 1..=20 {
        cfg.push_str(&format!("{},ST_{},,,0\n", i, i));
    }
    cfg.push_str("60\n1\n1000,2\n01/01/2020,00:00:00.000001\n01/01/2020,00:00:00.000002\nbinary\n1\n");
    let mut dat: Vec<u8> = Vec::new();
    // Record 1: word pattern 0b0000_0000_0000_0101, second word 0b1000.
    push_u32_le(&mut dat, 1);
    push_u32_le(&mut dat, 0xffffffff);
    push_i16_le(&mut dat, 0);
    push_u16_le(&mut dat, 0b0101);
    push_u16_le(&mut dat, 0b1000);
    // Record 2: all bits set.
    push_u32_le(&mut dat, 2);
    push_u32_le(&mut dat, 0xffffffff);
    push_i16_le(&mut dat, 0);
    push_u16_le(&mut dat, 0xffff);
    push_u16_le(&mut dat, 0xffff);
    let record = parse_cfg_dat(&cfg, dat).expect("parse failed");
    assert_eq!(record.status_channels.len(), 20);
    // Record 1: channels 1 and 3 are set, channel 20 (bit 3 of word 2) set.
    assert_eq!(record.status_channels[0].data[0], 1);
    assert_eq!(record.status_channels[1].data[0], 0);
    assert_eq!(record.status_channels[2].data[0], 1);
    assert_eq!(record.status_channels[18].data[0], 0);
    assert_eq!(record.status_channels[19].data[0], 1);
    // Record 2: every channel is set.
    for c in 0..20 {
        assert_eq!(record.status_channels[c].data[1], 1);
    }
}

#[test]
fn float32_samples_decode_exactly() {
    let cfg = "station,dev,1999\n\
               1,1A,0D\n\
               1,IA,A,obj,A,1,0,0,-100,100,1,1,P\n\
               60\n\
               1\n\
               1000,2\n\
               01/01/2020,00:00:00.000001\n\
               01/01/2020,00:00:00.000002\n\
               float32\n\
               1\n";
    let mut dat: Vec<u8> = Vec::new();
    push_u32_le(&mut dat, 1);
    push_u32_le(&mut dat, 0xffffffff);
    push_u32_le(&mut dat, 1.5f32.to_bits());
    push_u32_le(&mut dat, 2);
    push_u32_le(&mut dat, 0xffffffff);
    push_u32_le(&mut dat, (-0.25f32).to_bits());
    let record = parse_cfg_dat(cfg, dat).expect("parse failed");
    let values: Vec<f64> = record.analog_channels[0].data.iter().map(rat_f64).collect();
    assert_eq!(values, vec![1.5, -0.25]);
}

#[test]
fn non_finite_float32_sample_is_a_decode_error() {
    let cfg = "station,dev,1999\n\
               1,1A,0D\n\
               1,IA,A,obj,A,1,0,0,-100,100,1,1,P\n\
               60\n\
               1\n\
               1000,1\n\
               01/01/2020,00:00:00.000001\n\
               01/01/2020,00:00:00.000002\n\
               float32\n\
               1\n";
    let mut dat: Vec<u8> = Vec::new();
    push_u32_le(&mut dat, 1);
    push_u32_le(&mut dat, 0xffffffff);
    push_u32_le(&mut dat, f32::INFINITY.to_bits());
    assert!(parse_cfg_dat(cfg, dat).is_err());
}

#[test]
fn truncated_binary_data_is_a_decode_error() {
    let mut dat = bin16_dat();
    dat.truncate(dat.len() - 3);
    assert!(parse_cfg_dat(BIN16_CFG, dat).is_err());
}

#[test]
fn wrong_ascii_column_count_is_a_decode_error() {
    let dat = "1,,-3\n";
    assert!(parse_cfg_dat(ASCII_1991_CFG, dat.as_bytes().to_vec()).is_err());
}

#[test]
fn bad_revision_token_is_fatal() {
    let cfg = "station,dev,2001\n1,1A,0D\n";
    let result = parse_cfg_dat(cfg, Vec::new());
    assert_eq!(
        result.unwrap_err(),
        ComtradeError::BadRevisionFormat("2001".to_string())
    );
}

#[test]
fn premature_end_of_configuration_is_fatal() {
    let cfg = "station,dev,1999\n2,1A,1D\n1,IA,A,obj,A,1,0,0,-100,100,1,1,P";
    let result = parse_cfg_dat(cfg, Vec::new());
    assert_eq!(result.unwrap_err(), ComtradeError::UnexpectedEndOfCfgFile);
}

#[test]
fn combined_container_routes_sections() {
    let cff = "--- file type: CFG ---\n\
               old station,dev\n\
               2,1A,1D\n\
               1,IA,A,obj,A,2,1,0,-100,100,1,1,S\n\
               1,ST_1,,,1\n\
               50\n\
               1\n\
               1000,2\n\
               12/31/1999,12:31:59.123456\n\
               12/31/1999,12:31:59.223456\n\
               ascii\n\
               --- file type: DAT ASCII ---\n\
               1,,-3,0\n\
               2,,0,1\n\
               --- file type: HDR ---\n\
               free text for humans\n\
               --- file type: INF ---\n\
               more free text\n";
    let record = ComtradeParserBuilder::new()
        .cff_file(cff.as_bytes().to_vec())
        .build()
        .parse()
        .expect("parse failed");
    assert_eq!(record.station_name, "old station");
    assert_eq!(record.sample_numbers, vec![1, 2]);
    let values: Vec<f64> = record.analog_channels[0].data.iter().map(rat_f64).collect();
    assert_eq!(values, vec![-5.0, 1.0]);
}

#[test]
fn content_before_any_container_header_is_fatal() {
    let cff = "stray line\n--- file type: CFG ---\n";
    let result = ComtradeParserBuilder::new()
        .cff_file(cff.as_bytes().to_vec())
        .build()
        .parse();
    assert!(result.is_err());
}

#[test]
fn missing_streams_are_reported() {
    assert!(ComtradeParserBuilder::new().build().parse().is_err());
    let only_cfg = ComtradeParserBuilder::new()
        .cfg_file(ASCII_1991_CFG.as_bytes().to_vec())
        .build()
        .parse();
    assert!(only_cfg.is_err());
}

#[test]
fn non_ascii_station_names_survive_decoding() {
    let cfg = ASCII_1991_CFG.replace("old station", "st\u{00e4}tion \u{d130}");
    let dat = "1,,-3,0\n";
    let record = parse_cfg_dat(&cfg, dat.as_bytes().to_vec()).expect("parse failed");
    assert_eq!(record.station_name, "st\u{00e4}tion \u{d130}");
}

#[test]
fn an_analog_row_with_extra_fields_is_rejected() {
    let cfg = ASCII_1991_CFG.replace(
        "1,IA,A,obj,A,2,1,0,-100,100,1,1,S",
        "1,IA,A,obj,A,2,1,0,-100,100,1,1,S,extra",
    );
    let result = parse_cfg_dat(&cfg, "1,,0,0\n".as_bytes().to_vec());
    assert_eq!(
        result.unwrap_err(),
        ComtradeError::MissingLineElements("Analog Channel Row")
    );
}

#[test]
fn truncated_binary_data_surfaces_as_a_wrapped_decode_error() {
    let mut dat = bin16_dat();
    dat.truncate(10);
    let result = parse_cfg_dat(BIN16_CFG, dat);
    assert!(matches!(result.unwrap_err(), ComtradeError::ParserError(_)));
}

#[test]
fn ascii_status_values_are_appended_unchanged() {
    // The data decoder carries raw status integers through without
    // revalidating them against the declared normal state.
    let dat = "1,,-3,7\n";
    let record = parse_cfg_dat(ASCII_1991_CFG, dat.as_bytes().to_vec()).expect("parse failed");
    assert_eq!(record.status_channels[0].data, vec![7]);
}

#[test]
fn ascii_data_errors_name_the_failing_row() {
    let dat = "1,,-3,0\n2,,bad,1\n";
    let result = parse_cfg_dat(ASCII_1991_CFG, dat.as_bytes().to_vec());
    match result.unwrap_err() {
        ComtradeError::ParserError(e) => {
            assert!(e.message.contains("data row 2"));
        }
        other => panic!("unexpected error: {:?}", other),
    }
}

#[test]
fn wrong_column_count_reports_expected_and_actual() {
    let dat = "1,,-3\n";
    let result = parse_cfg_dat(ASCII_1991_CFG, dat.as_bytes().to_vec());
    match result.unwrap_err() {
        ComtradeError::ParserError(e) => {
            assert!(e.message.contains("expected 4"));
            assert!(e.message.contains("got 3"));
        }
        other => panic!("unexpected error: {:?}", other),
    }
}
