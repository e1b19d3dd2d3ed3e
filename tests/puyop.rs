use ghoti::color::PuyoColor;
use ghoti::puyop_decoder::{PuyopDecodeError, PuyopDecoder};
use ghoti::puyop_parser::{PuyopParseError, PuyopParser};

#[test]
fn test_decode_field_only() {
    let decoder = PuyopDecoder::new();

    // .....Y
    // .G..YY
    // RGRRBB
    // RRGRGB
    let (field, seq, decisions) = decoder.decode_url("http://www.puyop.com/s/420Aa9r9hj").unwrap();

    assert_eq!(seq.len(), 0);
    assert_eq!(decisions.len(), 0);

    assert_eq!(field.color(1, 1), PuyoColor::Red);
    assert_eq!(field.color(6, 4), PuyoColor::Yellow);
}

#[test]
fn test_decode_with_control() {
    let decoder = PuyopDecoder::new();

    let url = "http://www.puyop.com/s/_0a0b";
    let (_field, seq, decisions) = decoder.decode_url(url).unwrap();

    assert!(seq.len() > 0);
    assert_eq!(seq.len(), decisions.len());
}

#[test]
fn test_decode_encoder_chars() {
    let decoder = PuyopDecoder::new();

    for (i, &c) in PuyopDecoder::encoder().iter().enumerate() {
        assert_eq!(decoder.decode_char(c).unwrap(), i);
    }
}

#[test]
fn test_parse_tumos() {
    let tumos = PuyopParser::parse_tumos("RR,BY,GG").unwrap();
    assert_eq!(tumos.len(), 3);
    assert_eq!(tumos[0].axis(), PuyoColor::Red);
    assert_eq!(tumos[0].child(), PuyoColor::Red);
}

#[test]
fn test_parse_decisions() {
    let decisions = PuyopParser::parse_decisions("3-0,4-1").unwrap();
    assert_eq!(decisions.len(), 2);
    assert_eq!(decisions[0].axis_x(), 3);
    assert_eq!(decisions[0].rot(), 0);
}

#[test]
fn decode_known_field_whole_grid() {
    let decoder = PuyopDecoder::new();
    let (field, _, _) = decoder.decode_url("420Aa9r9hj").unwrap();
    let rows = [".....Y", ".G..YY", "RGRRBB", "RRGRGB"];
    for (r, row) in rows.iter().enumerate() {
        let y = 4 - r;
        for (i, ch) in row.chars().enumerate() {
            let expected = match ch {
                'R' => PuyoColor::Red,
                'G' => PuyoColor::Green,
                'B' => PuyoColor::Blue,
                'Y' => PuyoColor::Yellow,
                _ => PuyoColor::Empty,
            };
            assert_eq!(field.color(i + 1, y), expected);
        }
    }
    for y in 5..=13 {
        for x in 1..=6 {
            assert_eq!(field.color(x, y), PuyoColor::Empty);
        }
    }
}

#[test]
fn decode_control_values() {
    let decoder = PuyopDecoder::new();
    let (_, seq, decisions) = decoder.decode_url("_0a0b").unwrap();
    assert_eq!(seq.len(), 2);
    assert_eq!(seq[0].axis(), PuyoColor::Red);
    assert_eq!(seq[0].child(), PuyoColor::Red);
    assert_eq!(decisions[0].axis_x(), 1);
    assert_eq!(decisions[0].rot(), 1);
    assert_eq!(seq[1].axis(), PuyoColor::Empty);
    assert_eq!(seq[1].child(), PuyoColor::Empty);
    assert_eq!(decisions[1].axis_x(), 1);
    assert_eq!(decisions[1].rot(), 1);
}

#[test]
fn decode_errors() {
    let decoder = PuyopDecoder::new();
    assert!(matches!(decoder.decode_url("http://example.com/x"), Err(PuyopDecodeError::InvalidUrl)));
    assert!(matches!(decoder.decode_url("4#0"), Err(PuyopDecodeError::InvalidFieldChar('#'))));
    assert!(matches!(decoder.decode_url("_0"), Err(PuyopDecodeError::OddControl)));
    assert!(matches!(decoder.decode_url("_0#"), Err(PuyopDecodeError::InvalidControlChar('#'))));
    assert!(matches!(decoder.decode_url("_0#0a"), Err(PuyopDecodeError::InvalidControlChar('#'))));
    assert!(matches!(decoder.decode_url("_0#0a1"), Err(PuyopDecodeError::OddControl)));
    let too_tall: String = std::iter::repeat('1').take(42).collect();
    assert!(matches!(decoder.decode_url(&too_tall), Err(PuyopDecodeError::FieldTooTall)));
}

#[test]
fn decode_empty_is_empty_grid() {
    let decoder = PuyopDecoder::new();
    let (field, seq, decisions) = decoder.decode_url("http://www.puyop.com/s/").unwrap();
    assert_eq!(seq.len(), 0);
    assert_eq!(decisions.len(), 0);
    for x in 1..=6 {
        assert_eq!(field.height(x), 0);
    }
}

#[test]
fn parse_errors() {
    assert!(matches!(PuyopParser::parse_decisions("7-0"), Err(PuyopParseError::InvalidDecisions(_))));
    assert!(matches!(PuyopParser::parse_decisions("3-4"), Err(PuyopParseError::InvalidDecisions(_))));
    assert!(matches!(PuyopParser::parse_decisions("3_0"), Err(PuyopParseError::InvalidDecisions(_))));
    assert!(matches!(PuyopParser::parse_tumos("RX"), Err(PuyopParseError::InvalidTumos(_))));
    assert!(matches!(PuyopParser::parse_tumos("RRR"), Err(PuyopParseError::InvalidTumos(_))));
    assert!(matches!(PuyopParser::parse_url("no query"), Err(PuyopParseError::InvalidUrl)));
}

#[test]
fn parse_trims_and_ignores_case() {
    let tumos = PuyopParser::parse_tumos(" ry , o. ").unwrap();
    assert_eq!(tumos.len(), 2);
    assert_eq!(tumos[0].axis(), PuyoColor::Red);
    assert_eq!(tumos[0].child(), PuyoColor::Yellow);
    assert_eq!(tumos[1].axis(), PuyoColor::Ojama);
    assert_eq!(tumos[1].child(), PuyoColor::Empty);
    let ds = PuyopParser::parse_decisions(" 6-3 ,+1-2").unwrap();
    assert_eq!(ds[0].axis_x(), 6);
    assert_eq!(ds[0].rot(), 3);
    assert_eq!(ds[1].axis_x(), 1);
    assert_eq!(ds[1].rot(), 2);
}

#[test]
fn parse_url_reads_last_parameters() {
    let (field, tumos, ds) = PuyopParser::parse_url("x?field=abc&tumos=GG&ops=1-0&tumos=RB,YY").unwrap();
    assert_eq!(field.height(3), 0);
    assert_eq!(tumos.len(), 2);
    assert_eq!(tumos[0].axis(), PuyoColor::Red);
    assert_eq!(tumos[0].child(), PuyoColor::Blue);
    assert_eq!(ds.len(), 1);
    assert_eq!(ds[0].axis_x(), 1);
    let (_, none, no_ops) = PuyopParser::parse_url("?").unwrap();
    assert_eq!(none.len(), 0);
    assert_eq!(no_ops.len(), 0);
}
