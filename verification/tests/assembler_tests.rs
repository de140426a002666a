use segclock::assembler::LineAssembler;
use segclock::assembler::ZdaFields;
use segclock::assembler::process_line;

fn feed(rx: &mut LineAssembler, bytes: &[u8]) -> Option<ZdaFields> {
    let mut result = None;
    for &b in bytes {
        let r = rx.push_byte(b);
        if r.is_some() {
            result = r;
        }
    }
    result
}

#[test]
fn zda_sentence_yields_time_and_date() {
    let mut rx = LineAssembler::new();
    let f = feed(&mut rx, b"$GNZDA,004101.000,08,08,2023,00,00*4F\n").unwrap();
    assert_eq!(f.hour, 0);
    assert_eq!(f.minute, 41);
    assert_eq!(f.second, 1);
    assert_eq!(f.day, 8);
    assert_eq!(f.month, 8);
    assert_eq!(f.year, 2023);
}

#[test]
fn zero_time_and_date_fields_are_rejected() {
    let mut rx = LineAssembler::new();
    let r = feed(&mut rx, b"$GNZDA,000000.000,00,00,0000,00,00*4F\n");
    assert!(r.is_none());
}

#[test]
fn zero_day_alone_is_rejected() {
    let mut rx = LineAssembler::new();
    let r = feed(&mut rx, b"$GNZDA,004101.000,00,08,2023,00,00*4F\n");
    assert!(r.is_none());
}

#[test]
fn other_sentences_are_ignored() {
    let mut rx = LineAssembler::new();
    let r = feed(&mut rx, b"$GPGGA,004101.000,08,08,2023,00,00*4F\n");
    assert!(r.is_none());
}

#[test]
fn unparsable_field_defaults_to_zero_and_rejects() {
    let mut rx = LineAssembler::new();
    let r = feed(&mut rx, b"$GNZDA,004101.000,xx,08,2023,00,00*4F\n");
    assert!(r.is_none());
}

#[test]
fn leading_plus_sign_parses_like_rust() {
    let mut rx = LineAssembler::new();
    let f = feed(&mut rx, b"$GNZDA,004101.000,+08,08,2023,00,00*4F\n").unwrap();
    assert_eq!(f.day, 8);
}

#[test]
fn fraction_is_discarded() {
    let mut rx = LineAssembler::new();
    let f = feed(&mut rx, b"$GNZDA,235959.999,31,12,2024,00,00*4F\n").unwrap();
    assert_eq!(f.hour, 23);
    assert_eq!(f.minute, 59);
    assert_eq!(f.second, 59);
}

#[test]
fn oversized_numeric_field_defaults_to_zero() {
    let mut rx = LineAssembler::new();
    let r = feed(
        &mut rx,
        b"$GNZDA,004101.000,99999999999999999999999999,08,2023,00,00*4F\n",
    );
    assert!(r.is_none());
}

#[test]
fn missing_fields_parse_as_zero_and_reject() {
    let mut rx = LineAssembler::new();
    assert!(feed(&mut rx, b"$GNZDA\n").is_none());
    assert!(feed(&mut rx, b"$GNZDA,004101.000\n").is_none());
    assert!(feed(&mut rx, b"$GNZDA,004101.000,08,08\n").is_none());
}

#[test]
fn invalid_text_is_discarded() {
    let mut rx = LineAssembler::new();
    // 0xFF never occurs in valid UTF-8, even in a trailing unread field
    let mut line = b"$GNZDA,004101.000,08,08,2023,00,\xFF\xFF*4F".to_vec();
    line.push(b'\n');
    let r = feed(&mut rx, &line);
    assert!(r.is_none());
}

#[test]
fn overlong_line_is_dropped_without_corrupting_the_next() {
    let mut rx = LineAssembler::new();
    let mut noise = vec![b'A'; 400];
    noise.push(b'\n');
    assert!(feed(&mut rx, &noise).is_none());
    let f = feed(&mut rx, b"$GNZDA,004101.000,08,08,2023,00,00*4F\n").unwrap();
    assert_eq!(f.year, 2023);
}

#[test]
fn buffer_resets_after_unmatched_line() {
    let mut rx = LineAssembler::new();
    assert!(feed(&mut rx, b"garbage line\n").is_none());
    let f = feed(&mut rx, b"$GNZDA,120000.000,01,01,2030,00,00*4F\n").unwrap();
    assert_eq!(f.hour, 12);
    assert_eq!(f.year, 2030);
}

#[test]
fn process_line_accepts_complete_line_without_terminator() {
    let f = process_line(b"$GNZDA,004101.000,08,08,2023,00,00*4F").unwrap();
    assert_eq!(f.minute, 41);
}

#[test]
fn hours_minutes_seconds_come_from_modulo_100_extraction() {
    let f = process_line(b"$GNZDA,987654,01,01,2023,00,00").unwrap();
    assert_eq!(f.hour, 98);
    assert_eq!(f.minute, 76);
    assert_eq!(f.second, 54);
}
