//! Unit tests of the configuration grammar: line splitting, the count
//! line, the identity line, revisions, stamps and coded fields.
use comtrade::{
    split_cfg_line, ts_base_unit, AnalogScalingMode, ChannelSizes, ComtradeDateTime,
    ComtradeError, DataFormat, Date, DateTime, FormatRevision, IdRow, LeapSecondStatus, Rational,
    SamplingRate, StatusConfig, Time, TimePrecision, TimeQuality,
};

fn rat_f64(r: &Rational) -> f64 {
    let m = r.num as f64 / r.den as f64;
    if r.neg {
        -m
    } else {
        m
    }
}

#[test]
fn cfg_split_line_uses_csv_seperator_and_trims_whitespace() {
    let line = "  1, 2, 3 ,4   ";
    let mut iter = split_cfg_line(line.as_bytes());
    assert_eq!(iter.next(), Some(b"1".to_vec()));
    assert_eq!(iter.next(), Some(b"2".to_vec()));
    assert_eq!(iter.next(), Some(b"3".to_vec()));
    assert_eq!(iter.next(), Some(b"4".to_vec()));
    assert_eq!(iter.next(), None);
}

#[test]
fn cfg_get_channel_counts() {
    let line = "20,4A,16D ";
    let line = split_cfg_line(line.as_bytes());
    let sizes = ChannelSizes::from_line(line).unwrap();
    assert_eq!(sizes.total, 20);
    assert_eq!(sizes.analog, 4);
    assert_eq!(sizes.status, 16);
}

#[test]
fn mod_split_line_uses_csv_seperator_and_trims_whitespace() {
    let line = "  1, 2, 3 ,4   ";
    let mut iter = split_cfg_line(line.as_bytes());
    assert_eq!(iter.next(), Some(b"1".to_vec()));
    assert_eq!(iter.next(), Some(b"2".to_vec()));
    assert_eq!(iter.next(), Some(b"3".to_vec()));
    assert_eq!(iter.next(), Some(b"4".to_vec()));
    assert_eq!(iter.next(), None);
}

#[test]
fn mod_get_channel_counts() {
    let line = "20,4A,16D ";
    let line = split_cfg_line(line.as_bytes());
    let sizes = ChannelSizes::from_line(line).unwrap();
    assert_eq!(sizes.analog, 4);
    assert_eq!(sizes.status, 16);
}

#[test]
fn id_line_format_revision_from_str_works() {
    assert_eq!(
        FormatRevision::from_str("1991").unwrap(),
        FormatRevision::Revision1991
    );
    assert_eq!(
        FormatRevision::from_str("1999").unwrap(),
        FormatRevision::Revision1999
    );
    assert_eq!(
        FormatRevision::from_str("2013").unwrap(),
        FormatRevision::Revision2013
    );
}

#[test]
fn id_line_error_in_format_revision_from_str() {
    assert!(FormatRevision::from_str("1990").is_err());
}

#[test]
fn revisions_format_revision_from_str_works() {
    assert_eq!(
        FormatRevision::from_str("1991").unwrap(),
        FormatRevision::Revision1991
    );
    assert_eq!(
        FormatRevision::from_str("1999").unwrap(),
        FormatRevision::Revision1999
    );
    assert_eq!(
        FormatRevision::from_str("2013").unwrap(),
        FormatRevision::Revision2013
    );
}

#[test]
fn revisions_error_in_format_revision_from_str() {
    assert!(FormatRevision::from_str("1990").is_err());
}

#[test]
fn id_row_from_config_line_works() {
    let line = "Station name,rec_dev_id,2013";
    let result = IdRow::from_config_line(split_cfg_line(line.as_bytes())).unwrap();
    assert_eq!(
        result,
        IdRow {
            station_name: "Station name".to_string(),
            recording_device_id: "rec_dev_id".to_string(),
            format_revision: FormatRevision::Revision2013,
        }
    );
}

#[test]
fn missing_version_in_id_row_shows_revision_1991() {
    let line = "Station name,rec_dev_id";
    let result = IdRow::from_config_line(split_cfg_line(line.as_bytes())).unwrap();
    assert_eq!(
        result,
        IdRow {
            station_name: "Station name".to_string(),
            recording_device_id: "rec_dev_id".to_string(),
            format_revision: FormatRevision::Revision1991,
        }
    );
}

#[test]
fn errors_on_invalid_standard_status_value() {
    let line = "3, name, phase, component, 2";
    let result = StatusConfig::from_config_row(split_cfg_line(line.as_bytes()));
    assert!(result.is_err());
    assert_eq!(result.unwrap_err(), ComtradeError::InvalidNormalStatus(3));
}

#[test]
fn read_date_with_revision_1991() {
    let revision = FormatRevision::Revision1991;
    let line = "12/31/1999,12:31:59.123456";
    let line = split_cfg_line(line.as_bytes());
    let time = ComtradeDateTime::from_config_line(line, &revision).unwrap();
    assert_eq!(
        time.date_time,
        DateTime {
            date: Date { year: 1999, month: 12, day: 31 },
            time: Time { hour: 12, minute: 31, second: 59, nanosecond: 123456000 },
        }
    );
}

#[test]
fn read_date_with_revision_1999() {
    let revision = FormatRevision::Revision1999;
    let line = "31/12/1999,12:31:59.123456";
    let line = split_cfg_line(line.as_bytes());
    let time = ComtradeDateTime::from_config_line(line, &revision).unwrap();
    assert_eq!(
        time.date_time,
        DateTime {
            date: Date { year: 1999, month: 12, day: 31 },
            time: Time { hour: 12, minute: 31, second: 59, nanosecond: 123456000 },
        }
    );
}

#[test]
fn read_date_with_revision_2013() {
    let revision = FormatRevision::Revision2013;
    let line = "31/12/1999,12:31:59.123456";
    let line = split_cfg_line(line.as_bytes());
    let time = ComtradeDateTime::from_config_line(line, &revision).unwrap();
    assert_eq!(
        time.date_time,
        DateTime {
            date: Date { year: 1999, month: 12, day: 31 },
            time: Time { hour: 12, minute: 31, second: 59, nanosecond: 123456000 },
        }
    );
}

#[test]
fn read_date_rejects_a_day_that_does_not_exist() {
    let revision = FormatRevision::Revision2013;
    assert!(revision.read_date("29/02/2020".as_bytes()).is_ok());
    assert!(revision.read_date("29/02/2021".as_bytes()).is_err());
    assert!(revision.read_date("31/04/2021".as_bytes()).is_err());
    assert!(revision.read_date("00/01/2021".as_bytes()).is_err());
}

#[test]
fn read_time_precision_microseconds_6_digits_or_less() {
    let revision = FormatRevision::Revision2013;
    let line = "31/12/1999,12:31:59.123456";
    let time = ComtradeDateTime::from_config_line(split_cfg_line(line.as_bytes()), &revision)
        .unwrap();
    assert_eq!(time.precision, TimePrecision::Microseconds);

    let line = "31/12/1999,12:31:59.12345";
    let time = ComtradeDateTime::from_config_line(split_cfg_line(line.as_bytes()), &revision)
        .unwrap();
    assert_eq!(time.precision, TimePrecision::Microseconds);

    let line = "31/12/1999,12:31:59.123";
    let time = ComtradeDateTime::from_config_line(split_cfg_line(line.as_bytes()), &revision)
        .unwrap();
    assert_eq!(time.precision, TimePrecision::Microseconds);
}

#[test]
fn read_time_precision_nanoseconds_7_digits_or_more() {
    let revision = FormatRevision::Revision2013;
    let line = "31/12/1999,12:31:59.1234567";
    let time = ComtradeDateTime::from_config_line(split_cfg_line(line.as_bytes()), &revision)
        .unwrap();
    assert_eq!(time.precision, TimePrecision::Nanoseconds);

    let line = "31/12/1999,12:31:59.12345678";
    let time = ComtradeDateTime::from_config_line(split_cfg_line(line.as_bytes()), &revision)
        .unwrap();
    assert_eq!(time.precision, TimePrecision::Nanoseconds);

    let line = "31/12/1999,12:31:59.123456789";
    let time = ComtradeDateTime::from_config_line(split_cfg_line(line.as_bytes()), &revision)
        .unwrap();
    assert_eq!(time.precision, TimePrecision::Nanoseconds);
}

#[test]
fn read_time_precision_nanoseconds_error_if_no_fractional_digits() {
    let revision = FormatRevision::Revision2013;
    let line = "31/12/1999,12:31:59";
    let time = ComtradeDateTime::from_config_line(split_cfg_line(line.as_bytes()), &revision);
    assert!(matches!(time, Err(ComtradeError::CantFindTimestampPrecision)));
}

#[test]
fn time_precision_ordering() {
    assert!(TimePrecision::Microseconds > TimePrecision::Nanoseconds);
}

#[test]
fn test_precision_to_value() {
    assert_eq!(rat_f64(&TimePrecision::Microseconds.to_value()), 1E-6);
    assert_eq!(rat_f64(&TimePrecision::Nanoseconds.to_value()), 1E-9);
}

#[test]
fn test_from_config_line() {
    let line = "1000, 10000";
    let line = split_cfg_line(line.as_bytes());
    let rate = SamplingRate::from_config_line(line).unwrap();
    assert_eq!(rat_f64(&rate.rate_hz), 1000.0);
    assert_eq!(rate.end_sample_number, 10000);
}

#[test]
fn ts_base_unit_counts_digits_after_the_last_dot() {
    assert_eq!(
        ts_base_unit("12:31:59.123456".as_bytes()).unwrap(),
        TimePrecision::Microseconds
    );
    assert_eq!(
        ts_base_unit("12:31:59.1234567".as_bytes()).unwrap(),
        TimePrecision::Nanoseconds
    );
    assert!(matches!(
        ts_base_unit("12:31:59".as_bytes()),
        Err(ComtradeError::CantFindTimestampPrecision)
    ));
}

#[test]
fn data_format_tokens_are_case_insensitive() {
    assert_eq!(DataFormat::from_str("ascii").unwrap(), DataFormat::Ascii);
    assert_eq!(DataFormat::from_str(" BINARY ").unwrap(), DataFormat::Binary16);
    assert_eq!(DataFormat::from_str("Binary32").unwrap(), DataFormat::Binary32);
    assert_eq!(DataFormat::from_str("float32").unwrap(), DataFormat::Float32);
    assert!(DataFormat::from_str("hex").is_err());
}

#[test]
fn scaling_mode_tokens() {
    assert_eq!(
        AnalogScalingMode::from_str("p").unwrap(),
        AnalogScalingMode::Primary
    );
    assert_eq!(
        AnalogScalingMode::from_str("S").unwrap(),
        AnalogScalingMode::Secondary
    );
    assert!(AnalogScalingMode::from_str("q").is_err());
}

#[test]
fn time_quality_codes() {
    assert_eq!(TimeQuality::from_str("F").unwrap(), TimeQuality::ClockFailure);
    assert_eq!(TimeQuality::from_str("b").unwrap(), TimeQuality::ClockUnlocked(1));
    assert_eq!(TimeQuality::from_str("a").unwrap(), TimeQuality::ClockUnlocked(0));
    assert_eq!(TimeQuality::from_str("9").unwrap(), TimeQuality::ClockUnlocked(-1));
    assert_eq!(TimeQuality::from_str("1").unwrap(), TimeQuality::ClockUnlocked(-9));
    assert_eq!(TimeQuality::from_str("0").unwrap(), TimeQuality::ClockLocked);
    assert!(TimeQuality::from_str("z").is_err());
}

#[test]
fn leap_second_codes() {
    assert_eq!(
        LeapSecondStatus::from_str("3").unwrap(),
        LeapSecondStatus::NoCapability
    );
    assert_eq!(
        LeapSecondStatus::from_str("2").unwrap(),
        LeapSecondStatus::Subtracted
    );
    assert_eq!(LeapSecondStatus::from_str("1").unwrap(), LeapSecondStatus::Added);
    assert_eq!(
        LeapSecondStatus::from_str("0").unwrap(),
        LeapSecondStatus::NotPresent
    );
    assert!(LeapSecondStatus::from_str("4").is_err());
}

#[test]
fn missing_count_field_reports_its_context() {
    let line = "20,4A";
    let result = ChannelSizes::from_line(split_cfg_line(line.as_bytes()));
    assert_eq!(
        result.unwrap_err(),
        ComtradeError::MissingLineElements("Channel Sizes: Status")
    );
}

#[test]
fn unparsable_count_field_reports_value_and_context() {
    let line = "20,xA,16D";
    let result = ChannelSizes::from_line(split_cfg_line(line.as_bytes()));
    match result.unwrap_err() {
        ComtradeError::InvalidValue { value, field, .. } => {
            assert_eq!(value, "xA");
            assert_eq!(field, "Channel Sizes: Analog");
        }
        other => panic!("unexpected error: {:?}", other),
    }
}

#[test]
fn context_attaches_to_every_error_variant() {
    let labelled = ComtradeError::MissingLineElements("before").add_context("after");
    assert_eq!(labelled, ComtradeError::MissingLineElements("after"));
    let wrapped = ComtradeError::UnexpectedEndOfCfgFile.add_context("Sampling Rates");
    assert_eq!(
        wrapped,
        ComtradeError::WithContext(
            "Sampling Rates",
            Box::new(ComtradeError::UnexpectedEndOfCfgFile)
        )
    );
    let relabelled = wrapped.add_context("Stamps");
    assert_eq!(
        relabelled,
        ComtradeError::WithContext("Stamps", Box::new(ComtradeError::UnexpectedEndOfCfgFile))
    );
}

#[test]
fn channel_indices_are_one_based() {
    let line = "0, name, phase, component, 1";
    let result = StatusConfig::from_config_row(split_cfg_line(line.as_bytes()));
    assert!(matches!(
        result.unwrap_err(),
        ComtradeError::InvalidValue { .. }
    ));
}
