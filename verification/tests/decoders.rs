//! Decoder-level tests: single spans through the value decoding library.

use stepmania::ParseErrorCode;
use stepmania::StepmaniaParser;
use stepmania::UnparsedPropertyValue;

fn span(text: &str) -> UnparsedPropertyValue {
    UnparsedPropertyValue {
        raw: text.to_string(),
        line: 1,
        column: 0,
        len: text.chars().count(),
    }
}

#[test]
fn fixed_precision_numbers_truncate_beyond_precision() {
    let mut parser = StepmaniaParser::new();
    assert_eq!(parser.parse_to_number(span("1.333"), 3), Some(1333));
    assert_eq!(parser.parse_to_number(span("83"), 3), Some(83000));
    assert_eq!(parser.parse_to_number(span("66.6668423"), 3), Some(66666));
    assert_eq!(parser.errors.len(), 0);
}

#[test]
fn fixed_precision_numbers_trim_and_sign() {
    let mut parser = StepmaniaParser::new();
    assert_eq!(parser.parse_to_number(span("  1.333  "), 3), Some(1333));
    assert_eq!(parser.parse_to_number(span("-2.5"), 3), Some(-2500));
    assert_eq!(parser.parse_to_number(span(".5"), 3), Some(500));
    assert_eq!(parser.parse_to_number(span("7"), 0), Some(7));
    assert_eq!(parser.errors.len(), 0);
}

#[test]
fn invalid_numbers_report_the_original_span() {
    let mut parser = StepmaniaParser::new();
    let v = UnparsedPropertyValue {
        raw: "1.2.3".to_string(),
        line: 4,
        column: 9,
        len: 5,
    };
    assert_eq!(parser.parse_to_number(v, 3), None);
    assert_eq!(parser.errors.len(), 1);
    assert_eq!(parser.errors[0].code, ParseErrorCode::StepmaniaInvalidNumber);
    assert_eq!(parser.errors[0].line, 4);
    assert_eq!(parser.errors[0].column, 9);
    assert_eq!(parser.errors[0].len, 5);
}

#[test]
fn ranges_split_on_the_first_dash() {
    let mut parser = StepmaniaParser::new();
    let r = parser.parse_to_number_range(span("66.6668423-240"), 3).unwrap();
    assert_eq!(r.min, 66666);
    assert_eq!(r.max, 240000);
    assert_eq!(parser.errors.len(), 0);
}

#[test]
fn range_with_one_bad_half_fails_with_one_diagnostic() {
    let mut parser = StepmaniaParser::new();
    assert!(parser.parse_to_number_range(span("12-x"), 3).is_none());
    assert_eq!(parser.errors.len(), 1);
    assert_eq!(parser.errors[0].code, ParseErrorCode::StepmaniaInvalidNumber);
    // The diagnostic points at the failing half's first character.
    assert_eq!(parser.errors[0].line, 1);
    assert_eq!(parser.errors[0].column, 3);
    assert_eq!(parser.errors[0].len, 1);
}

#[test]
fn booleans_accept_exactly_zero_and_one() {
    let mut parser = StepmaniaParser::new();
    assert!(!parser.parse_to_bool(span("0")));
    assert!(parser.parse_to_bool(span("1")));
    assert_eq!(parser.errors.len(), 0);

    // Anything else falls back to false while recording a diagnostic.
    assert!(!parser.parse_to_bool(span("yes")));
    assert_eq!(parser.errors.len(), 1);
    assert_eq!(
        parser.errors[0].code,
        ParseErrorCode::StepmaniaInvalidBoolean
    );
}

#[test]
fn color_channels_clamp_and_truncate() {
    let mut parser = StepmaniaParser::new();
    assert_eq!(parser.parse_to_color_channel(span("1")), Some(255));
    assert_eq!(parser.parse_to_color_channel(span("0.5")), Some(127));
    assert_eq!(parser.parse_to_color_channel(span("0")), Some(0));
    assert_eq!(parser.parse_to_color_channel(span("-0.25")), Some(0));
    assert_eq!(parser.parse_to_color_channel(span("2.5")), Some(255));
    assert_eq!(parser.errors.len(), 0);

    assert_eq!(parser.parse_to_color_channel(span("zz")), None);
    assert_eq!(parser.errors.len(), 1);
    assert_eq!(
        parser.errors[0].code,
        ParseErrorCode::StepmaniaInvalidColorValue
    );
}

#[test]
fn colors_decode_channelwise_with_defaults() {
    let mut parser = StepmaniaParser::new();
    let c = parser.parse_to_color(span("1^0.5^0^1"));
    assert_eq!(c.red, 255);
    assert_eq!(c.green, 127);
    assert_eq!(c.blue, 0);
    assert_eq!(c.alpha, 255);
    assert_eq!(parser.errors.len(), 0);
}

#[test]
fn color_missing_trailing_channels_keep_defaults() {
    let mut parser = StepmaniaParser::new();
    let c = parser.parse_to_color(span("0.25^1"));
    assert_eq!(c.red, 63);
    assert_eq!(c.green, 255);
    assert_eq!(c.blue, 0);
    assert_eq!(c.alpha, 255);
    assert_eq!(parser.errors.len(), 0);
}

#[test]
fn color_bad_channel_keeps_default_and_reports() {
    let mut parser = StepmaniaParser::new();
    let c = parser.parse_to_color(span("x^0.5^1^1"));
    assert_eq!(c.red, 0);
    assert_eq!(c.green, 127);
    assert_eq!(parser.errors.len(), 1);
    assert_eq!(
        parser.errors[0].code,
        ParseErrorCode::StepmaniaInvalidColorValue
    );
}

#[test]
fn color_without_separator_decodes_the_single_channel() {
    let mut parser = StepmaniaParser::new();
    let c = parser.parse_to_color(span("0.5"));
    assert_eq!(c.red, 127);
    assert_eq!(c.green, 0);
    assert_eq!(c.blue, 0);
    assert_eq!(c.alpha, 255);
    assert_eq!(parser.errors.len(), 0);
}

#[test]
fn color_diagnostics_point_at_the_channel() {
    let mut parser = StepmaniaParser::new();
    let c = parser.parse_to_color(span("1^zz"));
    assert_eq!(c.red, 255);
    assert_eq!(c.green, 0);
    assert_eq!(parser.errors.len(), 1);
    assert_eq!(
        parser.errors[0].code,
        ParseErrorCode::StepmaniaInvalidColorValue
    );
    // The trailing channel's first character and its exact length.
    assert_eq!(parser.errors[0].line, 1);
    assert_eq!(parser.errors[0].column, 2);
    assert_eq!(parser.errors[0].len, 2);
}

#[test]
fn attack_diagnostics_carry_real_positions() {
    let mut parser = StepmaniaParser::new();
    let attacks = parser.parse_attacks(span("time=1:time=2:mods=m"));
    assert_eq!(attacks.len(), 0);
    assert_eq!(parser.errors.len(), 2);
    assert_eq!(
        parser.errors[0].code,
        ParseErrorCode::StepmaniaInvalidAttackValueOrder
    );
    // The out-of-order segment's value starts after its `=`.
    assert_eq!(parser.errors[0].line, 1);
    assert_eq!(parser.errors[0].column, 12);
    assert_eq!(parser.errors[0].len, 1);
    assert_eq!(
        parser.errors[1].code,
        ParseErrorCode::StepmaniaInvalidAttackValue
    );
    assert_eq!(parser.errors[1].column, 19);
}

#[test]
fn group_splitter_yields_positioned_fields() {
    let mut parser = StepmaniaParser::new();
    let v = span("guitar=guiatarrr.ogg,drums= drums.mp3, vocal =yer.mp3");
    let groups = parser.parse_to_value_entries(&v, true);
    assert_eq!(parser.errors.len(), 0);

    assert_eq!(groups.len(), 3);
    for group in &groups {
        assert_eq!(group.len(), 2);
    }
    assert_eq!(groups[0][0].raw.trim(), "guitar");
    assert_eq!(groups[0][1].raw.trim(), "guiatarrr.ogg");
    assert_eq!(groups[1][0].raw.trim(), "drums");
    assert_eq!(groups[1][1].raw.trim(), "drums.mp3");
    assert_eq!(groups[2][0].raw.trim(), "vocal");
    assert_eq!(groups[2][1].raw.trim(), "yer.mp3");
}

#[test]
fn group_splitter_recomputes_positions_across_line_breaks() {
    let mut parser = StepmaniaParser::new();
    let v = UnparsedPropertyValue {
        raw: "a=b,\nc=d".to_string(),
        line: 3,
        column: 10,
        len: 8,
    };
    let groups = parser.parse_to_value_entries(&v, true);
    assert_eq!(groups.len(), 2);
    // Every field records the position of its own first character.
    assert_eq!(groups[0][0].line, 3);
    assert_eq!(groups[0][0].column, 10);
    // The second group's first field starts at the line break after the
    // comma.
    assert_eq!(groups[1][0].raw, "\nc");
    assert_eq!(groups[1][0].line, 3);
    assert_eq!(groups[1][0].column, 14);
    assert_eq!(groups[1][1].raw, "d");
    assert_eq!(groups[1][1].line, 4);
    assert_eq!(groups[1][1].column, 2);
}

#[test]
fn arity_check_drops_short_groups_and_flags_partial_ones() {
    let mut parser = StepmaniaParser::new();
    let v = span("1=2=3,7,4=5");
    let groups = parser.parse_value_group(&v, 2, 3);
    // "7" is below the minimum: dropped silently.  "4=5" is between the
    // minimum and the full count: kept, with one diagnostic.
    assert_eq!(groups.len(), 2);
    assert_eq!(groups[0].len(), 3);
    assert_eq!(groups[1].len(), 2);
    assert_eq!(parser.errors.len(), 1);
    assert_eq!(
        parser.errors[0].code,
        ParseErrorCode::StepmaniaInvalidValueCount
    );
    // The diagnostic spans both fields plus the separator between them.
    assert_eq!(parser.errors[0].len, 3);
}

#[test]
fn string_lists_trim_their_entries() {
    let mut parser = StepmaniaParser::new();
    let list = parser.parse_to_string_list(span(" a , b ,c"));
    assert_eq!(list.len(), 3);
    assert_eq!(list[0], "a");
    assert_eq!(list[1], "b");
    assert_eq!(list[2], "c");
    assert_eq!(parser.errors.len(), 0);
}

#[test]
fn attacks_parse_from_a_bare_span() {
    let mut parser = StepmaniaParser::new();
    let attacks = parser.parse_attacks(span("time=0.5:end=3:mods=flip"));
    assert_eq!(attacks.len(), 1);
    assert_eq!(attacks[0].start, 500);
    assert_eq!(attacks[0].duration, 2500);
    assert!(attacks[0].modifiers.is_empty());
    assert_eq!(parser.errors.len(), 0);
}
