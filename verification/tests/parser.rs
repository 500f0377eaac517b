use extruder_telemetry::parser::{is_header_line, DataRow, DecodeError, SystemStatus};

const LOG_LINE: &str = "1\t265\t49.25\t0\t0\t275\t76.25\t0\t0\t265\t68.25\t0\t0\t255\t82.50\t0\t0\t21.75\t0\t0\t23\t0\t0\t1500\t0\t0\t0\t640\t1689\tIDLE\t271\t0\t0\t0\t105\t0\t21000";

fn num(field: &str) -> f64 {
    field.parse::<f64>().unwrap()
}

#[test]
fn test_parse_data_row_tab_delimited() {
    let line = LOG_LINE;
    let result = DataRow::parse(line);
    assert!(result.is_ok());
    let data = result.unwrap();
    assert_eq!(num(&data.time), 1.0);
    assert_eq!(num(&data.set_t1), 265.0);
    assert_eq!(num(&data.temp1), 49.25);
    assert_eq!(data.status, SystemStatus::IDLE);
}

#[test]
fn test_parse_data_row_whitespace_delimited() {
    let line = "1 265 49.25 0 0 275 76.25 0 0 265 68.25 0 0 255 82.50 0 0 21.75 0 0 23 0 0 1500 0 0 0 640 1689 IDLE 271 0 0 0 105 0 21000";
    let result = DataRow::parse(line);
    assert!(result.is_ok());
    let data = result.unwrap();
    assert_eq!(num(&data.time), 1.0);
    assert_eq!(num(&data.set_t1), 265.0);
}

#[test]
fn test_is_header_line() {
    let header = "Time\tSetT1\tTemp1\tdc1\tErr1\tSetT2\tTemp2\tdc2\tErr2\tSetT3\tTemp3\tdc3\tErr3\tSetT4\tTemp4\tdc4\tErr4\tintT4\tExtCur\tExtPWM\tExtTmp\tUnused\tFAULT\tSetRPM\tRPM\tFT\tFTAVG\tPuller\tMemFree\tStatus\tWndrSpd\tPosSpd\tLength\tVolume\tSpDia\tSpFill\tFsIntT";
    assert!(is_header_line(header));

    let data_line = "1\t265\t49.25\t0\t0\t275\t76.25\t0\t0\t265\t68.25\t0\t0\t255\t82.50";
    assert!(!is_header_line(data_line));
}

#[test]
fn test_system_status_parsing() {
    assert_eq!(SystemStatus::from("IDLE"), SystemStatus::IDLE);
    assert_eq!(SystemStatus::from("RUNNING"), SystemStatus::RUNNING);
    assert_eq!(SystemStatus::from("ERROR"), SystemStatus::ERROR);
    assert!(matches!(SystemStatus::from("UNKNOWN"), SystemStatus::Unknown(_)));
}

#[test]
fn test_parse_actual_log_data() {
    // Actual data row from production log file
    let line = LOG_LINE;
    let result = DataRow::parse(line);
    assert!(result.is_ok(), "Failed to parse actual log data: {:?}", result.err());

    let data = result.unwrap();
    assert_eq!(num(&data.time), 1.0);
    assert_eq!(num(&data.set_t1), 265.0);
    assert_eq!(num(&data.temp1), 49.25);
    assert_eq!(num(&data.dc1), 0.0);
    assert_eq!(data.err1, 0);
    assert_eq!(num(&data.set_t2), 275.0);
    assert_eq!(num(&data.temp2), 76.25);
    assert_eq!(num(&data.int_t4), 21.75);
    assert_eq!(num(&data.ext_cur), 0.0);
    assert_eq!(data.ext_pwm, 0);
    assert_eq!(num(&data.ext_tmp), 23.0);
    assert_eq!(data.unused, 0);
    assert_eq!(data.fault, 0);
    assert_eq!(num(&data.set_rpm), 1500.0);
    assert_eq!(num(&data.rpm), 0.0);
    assert_eq!(num(&data.ft), 0.0);
    assert_eq!(num(&data.ft_avg), 0.0);
    assert_eq!(data.puller, 640);
    assert_eq!(data.mem_free, 1689);
    assert_eq!(data.status, SystemStatus::IDLE);
    assert_eq!(num(&data.wndr_spd), 271.0);
    assert_eq!(num(&data.pos_spd), 0.0);
    assert_eq!(num(&data.length), 0.0);
    assert_eq!(num(&data.volume), 0.0);
    assert_eq!(num(&data.sp_dia), 105.0);
    assert_eq!(num(&data.sp_fill), 0.0);
    assert_eq!(data.fs_int_t, 21000);
}

#[test]
fn delimiter_invariance_yields_equal_rows() {
    let tab = LOG_LINE.to_string();
    let space = LOG_LINE.replace('\t', " ");
    let row_tab = DataRow::parse(&tab).unwrap();
    let row_space = DataRow::parse(&space).unwrap();
    assert_eq!(row_tab, row_space);
}

#[test]
fn decoding_twice_gives_equal_results() {
    let first = DataRow::parse(LOG_LINE);
    let second = DataRow::parse(LOG_LINE);
    assert_eq!(first, second);
    let bad = "not\ta\trow";
    assert_eq!(DataRow::parse(bad), DataRow::parse(bad));
}

#[test]
fn field_error_names_the_one_bad_token() {
    // Replace token 6 (Temp2, "76.25") by a non-numeric string.
    let line = LOG_LINE.replace("76.25", "garbled");
    match DataRow::parse(&line) {
        Err(DecodeError::Field { name, index, token }) => {
            assert_eq!(name, "Temp2");
            assert_eq!(index, 6);
            assert_eq!(token, "garbled");
        },
        other => panic!("expected a field error, got {:?}", other),
    }
}

#[test]
fn thirty_six_tokens_fail_thirty_seven_succeed() {
    let tokens: Vec<&str> = LOG_LINE.split('\t').collect();
    assert_eq!(tokens.len(), 37);
    let short = tokens[..36].join("\t");
    match DataRow::parse(&short) {
        Err(DecodeError::FieldCount { count, line }) => {
            assert_eq!(count, 36);
            assert_eq!(line, short);
        },
        other => panic!("expected a count error, got {:?}", other),
    }
    assert!(DataRow::parse(LOG_LINE).is_ok());
}

#[test]
fn extra_trailing_tokens_are_ignored() {
    let longer = format!("{}\t7\t8.5", LOG_LINE);
    let row = DataRow::parse(&longer).unwrap();
    assert_eq!(row, DataRow::parse(LOG_LINE).unwrap());
}

#[test]
fn empty_line_fails_with_count_zero() {
    match DataRow::parse("") {
        Err(DecodeError::FieldCount { count, line }) => {
            assert_eq!(count, 0);
            assert_eq!(line, "");
        },
        other => panic!("expected a count error, got {:?}", other),
    }
}

#[test]
fn header_detection_is_case_insensitive() {
    assert!(is_header_line("TIME\tSETT1\tTEMP1"));
    assert!(is_header_line("time\tsett1\ttemp1"));
    assert!(is_header_line("Time\tSetT1\tTemp1\tmore"));
    assert!(!is_header_line("1\t265\t49.25"));
    assert!(!is_header_line(""));
}

#[test]
fn status_normalization() {
    assert_eq!(SystemStatus::from("idle"), SystemStatus::IDLE);
    assert_eq!(SystemStatus::from(" IDLE "), SystemStatus::IDLE);
    assert_eq!(SystemStatus::from("IDLE"), SystemStatus::IDLE);
    assert_eq!(SystemStatus::from("idling"), SystemStatus::Unknown("idling".to_string()));
    assert_eq!(SystemStatus::from(" hoMing "), SystemStatus::HOMING);
    assert_eq!(SystemStatus::from("HEATING"), SystemStatus::HEATING);
    assert_eq!(SystemStatus::from("prepared"), SystemStatus::PREPARED);
    // The unknown payload keeps the text verbatim, untrimmed.
    assert_eq!(SystemStatus::from(" idling "), SystemStatus::Unknown(" idling ".to_string()));
}

#[test]
fn numeric_grammar_edges() {
    // Decimal fields accept exponents, bare dots with digits, and specials.
    for tok in ["1e5", "-0.5", ".5", "5.", "+inf", "NaN", "-Infinity", "1.5E+3"] {
        let line = LOG_LINE.replace("49.25", tok);
        assert!(DataRow::parse(&line).is_ok(), "token {:?} should be accepted", tok);
    }
    for tok in ["", ".", "1..2", "5a", "e5", "1e", "--1", "in"] {
        let line = LOG_LINE.replace("49.25", tok);
        let r = DataRow::parse(&line);
        match r {
            Err(DecodeError::Field { index, .. }) => assert_eq!(index, 2),
            other => panic!("token {:?} should be rejected, got {:?}", tok, other),
        }
    }
    // Integer fields are 32-bit: the boundary values parse, beyond them fails.
    let ok_line = LOG_LINE.replace("1689", "-2147483648");
    assert_eq!(DataRow::parse(&ok_line).unwrap().mem_free, i32::MIN);
    let ok_line = LOG_LINE.replace("1689", "2147483647");
    assert_eq!(DataRow::parse(&ok_line).unwrap().mem_free, i32::MAX);
    let bad_line = LOG_LINE.replace("1689", "2147483648");
    match DataRow::parse(&bad_line) {
        Err(DecodeError::Field { name, index, .. }) => {
            assert_eq!(name, "MemFree");
            assert_eq!(index, 28);
        },
        other => panic!("expected a field error, got {:?}", other),
    }
    // Integer fields do not take decimal syntax.
    let bad_line = LOG_LINE.replace("1689", "16.89");
    assert!(matches!(DataRow::parse(&bad_line), Err(DecodeError::Field { .. })));
}

#[test]
fn fields_keep_trimmed_token_text() {
    let line = LOG_LINE.replace("49.25", " 49.25 ");
    let row = DataRow::parse(&line).unwrap();
    assert_eq!(row.temp1, "49.25");
    assert_eq!(row.time, "1");
}
