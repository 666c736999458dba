//! End-to-end tests: whole chart texts through `parse_from_string`.

use stepmania::ParseErrorCode;
use stepmania::StepmaniaDifficulty;
use stepmania::StepmaniaNoteType;
use stepmania::StepmaniaParser;

#[test]
fn it_should_parse_title() {
    let mut parser = StepmaniaParser::new();
    let data = "
#TITLE:;
";
    let chart = parser.parse_from_string(&data.to_string());
    assert_eq!(parser.errors.len(), 0);

    assert!(chart.title.is_some());
    assert_eq!(chart.title.unwrap(), "");
}

#[test]
fn it_should_parse_title_translit() {
    let mut parser = StepmaniaParser::new();
    let data = "
#TITLETRANSLIT:  hello world! ;
";
    let chart = parser.parse_from_string(&data.to_string());
    assert_eq!(parser.errors.len(), 0);

    assert!(chart.title_translit.is_some());
    assert_eq!(chart.title_translit.unwrap(), "hello world!");
}

#[test]
fn it_should_parse_sample() {
    let mut parser = StepmaniaParser::new();
    let data = "
#SAMPLESTART:1.333  ;
#SAMPLELENGTH: 83;
";
    let chart = parser.parse_from_string(&data.to_string());
    assert_eq!(parser.errors.len(), 0);

    assert!(chart.sample_start.is_some());
    assert!(chart.sample_length.is_some());
    assert_eq!(chart.sample_start.unwrap(), 1333);
    assert_eq!(chart.sample_length.unwrap(), 83000);
}

#[test]
fn it_should_parse_display_bpm() {
    let mut parser = StepmaniaParser::new();
    let data = "
#DISPLAYBPM:66.6668423 -240;
";
    let chart = parser.parse_from_string(&data.to_string());
    assert_eq!(parser.errors.len(), 0);

    assert!(chart.display_bpm.is_some());
    let bpm = chart.display_bpm.unwrap();
    assert_eq!(bpm.min, 66666);
    assert_eq!(bpm.max, 240000);
}

#[test]
fn it_should_parse_instrument_tracks() {
    let mut parser = StepmaniaParser::new();
    let data = "
#INSTRUMENTTRACKS:guitar=guiatarrr.ogg,
    drums= drums.mp3, vocal =yer.mp3;
";
    let chart = parser.parse_from_string(&data.to_string());
    assert_eq!(parser.errors.len(), 0);

    assert_eq!(chart.instrument_tracks.len(), 3);

    let guitar = chart.instrument_tracks.get(0).unwrap();
    let drums = chart.instrument_tracks.get(1).unwrap();
    let vocals = chart.instrument_tracks.get(2).unwrap();

    assert_eq!(guitar.instrument, "guitar");
    assert_eq!(guitar.file, "guiatarrr.ogg");

    assert_eq!(drums.instrument, "drums");
    assert_eq!(drums.file, "drums.mp3");

    assert_eq!(vocals.instrument, "vocal");
    assert_eq!(vocals.file, "yer.mp3");
}

#[test]
fn duplicate_property_keeps_last_value_with_one_diagnostic() {
    let mut parser = StepmaniaParser::new();
    let data = "#TITLE:a;#TITLE:b;";
    let chart = parser.parse_from_string(&data.to_string());

    assert_eq!(chart.title.unwrap(), "b");
    assert_eq!(parser.errors.len(), 1);
    assert_eq!(
        parser.errors[0].code,
        ParseErrorCode::StepmaniaDuplicatePropertyName
    );
    assert_eq!(parser.errors[0].len, 5);
}

#[test]
fn unterminated_value_is_one_diagnostic_and_no_property() {
    let mut parser = StepmaniaParser::new();
    let data = "#TITLE:abc";
    let chart = parser.parse_from_string(&data.to_string());

    assert!(chart.title.is_none());
    assert_eq!(parser.errors.len(), 1);
    assert_eq!(
        parser.errors[0].code,
        ParseErrorCode::StepmaniaExpectedValueEnd
    );
    assert_eq!(parser.errors[0].line, 1);
    assert_eq!(parser.errors[0].column, 7);
    assert_eq!(parser.errors[0].len, 3);
}

#[test]
fn free_floating_content_coalesces_into_one_diagnostic() {
    let mut parser = StepmaniaParser::new();
    let data = "xyz#TITLE:ok;";
    let chart = parser.parse_from_string(&data.to_string());

    assert_eq!(chart.title.unwrap(), "ok");
    assert_eq!(parser.errors.len(), 1);
    assert_eq!(
        parser.errors[0].code,
        ParseErrorCode::StepmaniaExpectedPropertyStart
    );
    assert_eq!(parser.errors[0].len, 3);
}

#[test]
fn whitespace_in_property_name_is_flagged() {
    let mut parser = StepmaniaParser::new();
    let data = "#TI TLE:a;";
    let chart = parser.parse_from_string(&data.to_string());

    // The name still lexes (as "ti tle"), which matches no known property.
    assert!(chart.title.is_none());
    assert_eq!(parser.errors.len(), 1);
    assert_eq!(
        parser.errors[0].code,
        ParseErrorCode::StepmaniaInvalidPropertyName
    );
}

#[test]
fn invalid_number_is_reported_and_field_omitted() {
    let mut parser = StepmaniaParser::new();
    let data = "#SAMPLESTART:abc;";
    let chart = parser.parse_from_string(&data.to_string());

    assert!(chart.sample_start.is_none());
    assert_eq!(parser.errors.len(), 1);
    assert_eq!(parser.errors[0].code, ParseErrorCode::StepmaniaInvalidNumber);
}

#[test]
fn empty_number_value_decodes_to_zero() {
    let mut parser = StepmaniaParser::new();
    let data = "#SAMPLESTART:;";
    let chart = parser.parse_from_string(&data.to_string());

    assert_eq!(parser.errors.len(), 0);
    assert_eq!(chart.sample_start.unwrap(), 0);
}

#[test]
fn negative_offset_is_scaled() {
    let mut parser = StepmaniaParser::new();
    let data = "#OFFSET:-1.5;";
    let chart = parser.parse_from_string(&data.to_string());

    assert_eq!(parser.errors.len(), 0);
    assert_eq!(chart.offset.unwrap(), -1500);
}

#[test]
fn display_bpm_without_range_uses_value_twice() {
    let mut parser = StepmaniaParser::new();
    let data = "#DISPLAYBPM:120;";
    let chart = parser.parse_from_string(&data.to_string());

    assert_eq!(parser.errors.len(), 0);
    let bpm = chart.display_bpm.unwrap();
    assert_eq!(bpm.min, 120000);
    assert_eq!(bpm.max, 120000);
}

#[test]
fn keysounds_keep_the_trailing_entry() {
    let mut parser = StepmaniaParser::new();
    let data = "#KEYSOUNDS:a.wav,b.wav, c.wav;";
    let chart = parser.parse_from_string(&data.to_string());

    assert_eq!(parser.errors.len(), 0);
    assert_eq!(chart.keysounds.len(), 3);
    assert_eq!(chart.keysounds[0], "a.wav");
    assert_eq!(chart.keysounds[1], "b.wav");
    assert_eq!(chart.keysounds[2], "c.wav");
}

#[test]
fn stops_decode_and_short_groups_are_dropped_silently() {
    let mut parser = StepmaniaParser::new();
    let data = "#STOPS:1=2,3,4.5=6;";
    let chart = parser.parse_from_string(&data.to_string());

    // "3" has one field, below the required two: dropped without an error.
    assert_eq!(parser.errors.len(), 0);
    assert_eq!(chart.stops.len(), 2);
    assert_eq!(chart.stops[0].beat, 1000);
    assert_eq!(chart.stops[0].duration, 2000);
    assert_eq!(chart.stops[1].beat, 4500);
    assert_eq!(chart.stops[1].duration, 6000);
}

#[test]
fn partial_visual_change_reports_count_and_keeps_record() {
    let mut parser = StepmaniaParser::new();
    let data = "#BGCHANGES:1.25=movie.avi;";
    let chart = parser.parse_from_string(&data.to_string());

    assert_eq!(parser.errors.len(), 1);
    assert_eq!(
        parser.errors[0].code,
        ParseErrorCode::StepmaniaInvalidValueCount
    );
    assert_eq!(chart.background_changes.len(), 1);
    let bg = &chart.background_changes[0];
    assert_eq!(bg.beat, 1250);
    assert_eq!(bg.path, "movie.avi");
    assert_eq!(bg.play_rate, 0);
    assert!(!bg.crossfade);
    assert_eq!(bg.color1.alpha, 255);
}

#[test]
fn visual_change_bad_boolean_keeps_record_and_reports() {
    let mut parser = StepmaniaParser::new();
    let data = "#BGCHANGES:0=a.png=1.5=yes=0=1=e=f=t=1^0^0^1=0^1^0^1;";
    let chart = parser.parse_from_string(&data.to_string());

    // The group is complete (11 fields): no count diagnostic, but the
    // crossfade flag "yes" is not a boolean.
    assert_eq!(parser.errors.len(), 1);
    assert_eq!(
        parser.errors[0].code,
        ParseErrorCode::StepmaniaInvalidBoolean
    );
    let bg = &chart.background_changes[0];
    assert_eq!(bg.beat, 0);
    assert_eq!(bg.path, "a.png");
    assert_eq!(bg.play_rate, 1);
    assert!(!bg.crossfade);
    assert!(!bg.stretch_rewind);
    assert!(bg.stretch_no_loop);
    assert_eq!(bg.effect, "e");
    assert_eq!(bg.file2, "f");
    assert_eq!(bg.transition, "t");
    assert_eq!(bg.color1.red, 255);
    assert_eq!(bg.color1.green, 0);
    assert_eq!(bg.color2.green, 255);
}

#[test]
fn time_signatures_decode_or_drop_silently() {
    let mut parser = StepmaniaParser::new();
    let ok = parser.parse_from_string(&"#TIMESIGNATURES:1=4=4;".to_string());
    assert_eq!(parser.errors.len(), 0);
    assert_eq!(ok.time_signatures.len(), 1);
    assert_eq!(ok.time_signatures[0].beat, 1000);
    assert_eq!(ok.time_signatures[0].numerator, 4);
    assert_eq!(ok.time_signatures[0].denominator, 4);

    let mut parser2 = StepmaniaParser::new();
    let bad = parser2.parse_from_string(&"#TIMESIGNATURES:1=300=4;".to_string());
    // 300 does not fit the numerator byte: the record is dropped silently.
    assert_eq!(parser2.errors.len(), 0);
    assert_eq!(bad.time_signatures.len(), 0);
}

#[test]
fn speeds_scrolls_combos_tickcounts_decode() {
    let mut parser = StepmaniaParser::new();
    let data = "#SPEEDS:0=1.5=2=0;#SCROLLS:4=0.25;#COMBOS:8=2=1;#TICKCOUNTS:0=-4;";
    let chart = parser.parse_from_string(&data.to_string());

    assert_eq!(parser.errors.len(), 0);
    assert_eq!(chart.speeds.len(), 1);
    assert_eq!(chart.speeds[0].beat, 0);
    assert_eq!(chart.speeds[0].ratio, 1500);
    assert_eq!(chart.speeds[0].duration, 2000);
    assert!(!chart.speeds[0].in_seconds);

    assert_eq!(chart.scrolls.len(), 1);
    assert_eq!(chart.scrolls[0].beat, 4000);
    assert_eq!(chart.scrolls[0].factor, 250);

    assert_eq!(chart.combos.len(), 1);
    assert_eq!(chart.combos[0].beat, 8000);
    assert_eq!(chart.combos[0].hit, 2);
    assert_eq!(chart.combos[0].miss, 1);

    assert_eq!(chart.tick_counts.len(), 1);
    assert_eq!(chart.tick_counts[0].beat, 0);
    assert_eq!(chart.tick_counts[0].value, -4);
}

#[test]
fn attacks_decode_with_end_and_len() {
    let mut parser = StepmaniaParser::new();
    let data = "#ATTACKS:time=1:len=2:mods=a,b:time=5:end=7.5:mods=c;";
    let chart = parser.parse_from_string(&data.to_string());

    // The segment separators are colons, which the lexer flags as one
    // coalesced end-of-value warning for the whole run.
    assert_eq!(parser.errors.len(), 1);
    assert_eq!(
        parser.errors[0].code,
        ParseErrorCode::StepmaniaExpectedValueEnd
    );
    assert_eq!(chart.attacks.len(), 2);
    assert_eq!(chart.attacks[0].start, 1000);
    assert_eq!(chart.attacks[0].duration, 2000);
    assert_eq!(chart.attacks[1].start, 5000);
    assert_eq!(chart.attacks[1].duration, 2500);
    assert!(chart.attacks[0].modifiers.is_empty());
}

#[test]
fn attack_key_out_of_order_is_reported() {
    let mut parser = StepmaniaParser::new();
    let data = "#ATTACKS:time=1:time=2:mods=m;";
    let chart = parser.parse_from_string(&data.to_string());

    assert_eq!(chart.attacks.len(), 0);
    assert_eq!(parser.errors.len(), 3);
    assert_eq!(
        parser.errors[0].code,
        ParseErrorCode::StepmaniaExpectedValueEnd
    );
    assert_eq!(
        parser.errors[1].code,
        ParseErrorCode::StepmaniaInvalidAttackValueOrder
    );
    assert_eq!(
        parser.errors[2].code,
        ParseErrorCode::StepmaniaInvalidAttackValue
    );
}

#[test]
fn note_grid_infers_columns_from_first_nonempty_row() {
    let mut parser = StepmaniaParser::new();
    let data = "#NOTES:dance-single:me:hard:5:radar:\n0101\n10,1100\n;";
    let chart = parser.parse_from_string(&data.to_string());

    // The metadata separators are colons inside the value: one coalesced
    // end-of-value warning.
    assert_eq!(parser.errors.len(), 1);
    assert_eq!(
        parser.errors[0].code,
        ParseErrorCode::StepmaniaExpectedValueEnd
    );
    let notes = chart.notes.unwrap();
    assert_eq!(notes.step_style, "dance-single");
    assert_eq!(notes.credit, "me");
    assert!(matches!(notes.difficulty, StepmaniaDifficulty::Hard));
    assert_eq!(notes.meter, 5);

    // The first non-empty grid row is four characters wide; later widths
    // do not change the inferred count.
    assert_eq!(notes.data.column_count, 4);
    assert_eq!(notes.data.notes.len(), 2);
    assert_eq!(notes.data.notes[0].len(), 6);
    assert_eq!(notes.data.notes[1].len(), 4);
    assert!(matches!(
        notes.data.notes[0][0].note_type,
        StepmaniaNoteType::Empty
    ));
    assert!(matches!(
        notes.data.notes[0][1].note_type,
        StepmaniaNoteType::Tap
    ));
}

#[test]
fn note_grid_inline_keysound_and_attack_attach_to_previous_cell() {
    let mut parser = StepmaniaParser::new();
    let data = "#NOTES:s:c:easy:1:r:\n1[3]0,2{time=0:len=2:mods=x}1\n;";
    let chart = parser.parse_from_string(&data.to_string());

    assert_eq!(parser.errors.len(), 1);
    assert_eq!(
        parser.errors[0].code,
        ParseErrorCode::StepmaniaExpectedValueEnd
    );
    let notes = chart.notes.unwrap();
    assert_eq!(notes.data.notes.len(), 2);

    let first_row = &notes.data.notes[0];
    assert_eq!(first_row.len(), 2);
    assert_eq!(first_row[0].keysound, Some(3));
    assert_eq!(first_row[1].keysound, None);

    let second_row = &notes.data.notes[1];
    assert_eq!(second_row.len(), 2);
    assert_eq!(second_row[0].actions.len(), 1);
    assert_eq!(second_row[0].actions[0].duration, 2000);
    assert!(second_row[1].actions.is_empty());
}

#[test]
fn unknown_properties_are_silently_ignored() {
    let mut parser = StepmaniaParser::new();
    let data = "#SOMETHINGELSE:whatever;#TITLE:t;";
    let chart = parser.parse_from_string(&data.to_string());

    assert_eq!(parser.errors.len(), 0);
    assert_eq!(chart.title.unwrap(), "t");
}

#[test]
fn selectable_stays_false() {
    let mut parser = StepmaniaParser::new();
    let chart = parser.parse_from_string(&"#SELECTABLE:YES;".to_string());
    assert!(!chart.selectable);
    assert_eq!(parser.errors.len(), 0);
}

#[test]
fn labels_decode_with_trimmed_text() {
    let mut parser = StepmaniaParser::new();
    let data = "#LABELS:4= chorus ,x=y;";
    let chart = parser.parse_from_string(&data.to_string());

    // The second group's beat is not a number: dropped, one diagnostic.
    assert_eq!(parser.errors.len(), 1);
    assert_eq!(parser.errors[0].code, ParseErrorCode::StepmaniaInvalidNumber);
    assert_eq!(chart.labels.len(), 1);
    assert_eq!(chart.labels[0].beat, 4000);
    assert_eq!(chart.labels[0].label, "chorus");
}

#[test]
fn bpms_and_delays_and_fakes_decode() {
    let mut parser = StepmaniaParser::new();
    let data = "#BPMS:0=120.5,4=140;#DELAYS:1=2;#FAKES:3=0.5;";
    let chart = parser.parse_from_string(&data.to_string());

    assert_eq!(parser.errors.len(), 0);
    assert_eq!(chart.bpms.len(), 2);
    assert_eq!(chart.bpms[0].bpm, 120500);
    assert_eq!(chart.bpms[1].beat, 4000);
    assert_eq!(chart.delays.len(), 1);
    assert_eq!(chart.fakes.len(), 1);
    assert_eq!(chart.fakes[0].duration, 500);
}
