//! The output record and the dispatch table: every lexed property is routed
//! by its lower-cased name to the decoder that fills the matching field.

use vstd::prelude::*;

use crate::attacks::{atk_finish, attacks_view};
use crate::chart::{ch_run, ch_rows_final, rows_view, StepmaniaChart};
use crate::common::ParseError;
use crate::lexer::{lex_finish, lex_init, lex_run, same_scan_fields, StepmaniaParser};
use crate::lists::{
    bpm_list,
    bpm_list_errors,
    combo_list,
    combo_list_errors,
    duration_list,
    duration_list_errors,
    instruments_match,
    kept_groups,
    label_list,
    label_list_errors,
    labels_match,
    number_list,
    number_list_errors,
    scroll_list,
    scroll_list_errors,
    signature_list,
    signature_list_errors,
    speed_list,
    speed_list_errors,
    visual_list_errors,
    visuals_match,
};
use crate::mappers::PRECISION_TIME;
use crate::numbers::number_value;
use crate::records::{
    StepmaniaAttack,
    StepmaniaInstrumentTrack,
    StepmaniaNumberRange,
    StepmaniaTimedBPM,
    StepmaniaTimedComboChange,
    StepmaniaTimedDuration,
    StepmaniaTimedLabel,
    StepmaniaTimedNumber,
    StepmaniaTimedScrollSpeedChange,
    StepmaniaTimedSpeedChange,
    StepmaniaTimedTimeSignature,
    StepmaniaTimedVisualChange,
    StepmaniaWarp,
};
use crate::span::{props_view, SpanG, UnparsedPropertyValue};
use crate::text::{trim_seq, string_eq_str};
use crate::values::{
    arity_errors,
    number_errors,
    range_errors,
    range_value,
    string_list,
    strings_view,
    value_entries,
};

verus! {

/// A fully decoded chart file: every field is independently optional, and
/// absence means the property was not present.
#[derive(Debug, Default)]
pub struct StepmaniaFile {
    /// Version of the SSC format.
    pub version: Option<String>,
    /// Title of the song, in the original language.
    pub title: Option<String>,
    /// Title of the song, translated to english.
    pub title_translit: Option<String>,
    /// Subtitle of the song, in the original language.
    pub subtitle: Option<String>,
    /// Subtitle of the song, translated to english.
    pub subtitle_translit: Option<String>,
    /// The artist of the song, in the original language.
    pub artist: Option<String>,
    /// The artist of the song, translated to english.
    pub artist_translit: Option<String>,
    /// The genre of the song.
    pub genre: Option<String>,
    /// The author of the pack/mix of the chart.
    pub credit: Option<String>,
    /// Relative path to the banner image.
    pub banner: Option<String>,
    /// Relative path to the background image.
    pub background: Option<String>,
    /// Relative path to the lyrics file.
    pub lyrics_path: Option<String>,
    /// Relative path to the cd-title image.
    pub cd_title: Option<String>,
    /// Relative path to the music file.
    pub music: Option<String>,
    /// Where the song came from if it is a crossover.
    pub origin: Option<String>,
    /// Relative path to the jacket image.
    pub jacket: Option<String>,
    /// Relative path to the CD image.
    pub cd_image: Option<String>,
    /// Relative path to the disk image.
    pub disk_image: Option<String>,
    /// Relative path to the preview file.
    pub preview: Option<String>,
    /// Starting time for the sample/preview in ms.
    pub sample_start: Option<i64>,
    /// Duration of the sample/preview in ms.
    pub sample_length: Option<i64>,
    /// When to end the song when the longest chart is shorter, in ms.
    pub last_second_hint: Option<i64>,
    /// The range of BPM the song displays.
    pub display_bpm: Option<StepmaniaNumberRange>,
    /// Whether the chart is selectable.
    pub selectable: bool,
    /// The assignments of instruments to their audio files.
    pub instrument_tracks: Vec<StepmaniaInstrumentTrack>,
    /// Changes to the background layer 1.
    pub background_changes: Vec<StepmaniaTimedVisualChange>,
    /// Changes to the background layer 2.
    pub background_changes2: Vec<StepmaniaTimedVisualChange>,
    /// Changes to the background layer 3.
    pub background_changes3: Vec<StepmaniaTimedVisualChange>,
    /// Changes to the animations layer.
    pub animations: Vec<StepmaniaTimedVisualChange>,
    /// Changes to the foreground layer.
    pub foreground_changes: Vec<StepmaniaTimedVisualChange>,
    /// The offset between song start and note data in ms.
    pub offset: Option<i64>,
    /// Keysound files referenced in the note data.
    pub keysounds: Vec<String>,
    /// The stops to apply at specific times.
    pub stops: Vec<StepmaniaTimedDuration>,
    /// The delays to apply at specific times.
    pub delays: Vec<StepmaniaTimedDuration>,
    /// The fake sections to apply at specific times.
    pub fakes: Vec<StepmaniaTimedDuration>,
    /// BPM changes to apply at specific times.
    pub bpms: Vec<StepmaniaTimedBPM>,
    /// Time signature changes to apply at specific times.
    pub time_signatures: Vec<StepmaniaTimedTimeSignature>,
    /// Attacks to apply at specific times.
    pub attacks: Vec<StepmaniaAttack>,
    /// The checkpoint-hold tick rates to apply at specific times.
    pub tick_counts: Vec<StepmaniaTimedNumber>,
    /// The combo changes to apply at specific times.
    pub combos: Vec<StepmaniaTimedComboChange>,
    /// The speed changes to apply at specific times.
    pub speeds: Vec<StepmaniaTimedSpeedChange>,
    /// The scroll-speed changes to apply at specific times.
    pub scrolls: Vec<StepmaniaTimedScrollSpeedChange>,
    /// The warps to be applied at specific times.
    pub warps: Vec<StepmaniaWarp>,
    /// The labels to display at specific times.
    pub labels: Vec<StepmaniaTimedLabel>,
    /// The chart content.
    pub notes: Option<StepmaniaChart>,
}

/// Which raw span each property field received: the dispatch routes spans
/// only, decoding is stated by [`file_matches`].
pub ghost struct FileG {
    pub version: Option<SpanG>,
    pub title: Option<SpanG>,
    pub title_translit: Option<SpanG>,
    pub subtitle: Option<SpanG>,
    pub subtitle_translit: Option<SpanG>,
    pub artist: Option<SpanG>,
    pub artist_translit: Option<SpanG>,
    pub genre: Option<SpanG>,
    pub credit: Option<SpanG>,
    pub banner: Option<SpanG>,
    pub background: Option<SpanG>,
    pub lyrics_path: Option<SpanG>,
    pub cd_title: Option<SpanG>,
    pub music: Option<SpanG>,
    pub origin: Option<SpanG>,
    pub jacket: Option<SpanG>,
    pub cd_image: Option<SpanG>,
    pub disk_image: Option<SpanG>,
    pub preview: Option<SpanG>,
    pub sample_start: Option<SpanG>,
    pub sample_length: Option<SpanG>,
    pub last_second_hint: Option<SpanG>,
    pub display_bpm: Option<SpanG>,
    pub instrument_tracks: Option<SpanG>,
    pub background_changes: Option<SpanG>,
    pub background_changes2: Option<SpanG>,
    pub background_changes3: Option<SpanG>,
    pub animations: Option<SpanG>,
    pub foreground_changes: Option<SpanG>,
    pub offset: Option<SpanG>,
    pub keysounds: Option<SpanG>,
    pub stops: Option<SpanG>,
    pub delays: Option<SpanG>,
    pub fakes: Option<SpanG>,
    pub bpms: Option<SpanG>,
    pub time_signatures: Option<SpanG>,
    pub attacks: Option<SpanG>,
    pub tick_counts: Option<SpanG>,
    pub combos: Option<SpanG>,
    pub speeds: Option<SpanG>,
    pub scrolls: Option<SpanG>,
    pub labels: Option<SpanG>,
    pub notes: Option<SpanG>,
}

/// No property seen yet.
pub open spec fn file_init() -> FileG {
    FileG {
        version: None,
        title: None,
        title_translit: None,
        subtitle: None,
        subtitle_translit: None,
        artist: None,
        artist_translit: None,
        genre: None,
        credit: None,
        banner: None,
        background: None,
        lyrics_path: None,
        cd_title: None,
        music: None,
        origin: None,
        jacket: None,
        cd_image: None,
        disk_image: None,
        preview: None,
        sample_start: None,
        sample_length: None,
        last_second_hint: None,
        display_bpm: None,
        instrument_tracks: None,
        background_changes: None,
        background_changes2: None,
        background_changes3: None,
        animations: None,
        foreground_changes: None,
        offset: None,
        keysounds: None,
        stops: None,
        delays: None,
        fakes: None,
        bpms: None,
        time_signatures: None,
        attacks: None,
        tick_counts: None,
        combos: None,
        speeds: None,
        scrolls: None,
        labels: None,
        notes: None,
    }
}

/// Routing one property by its lower-cased name.  Unknown names are
/// silently ignored; `selectable` never changes a span field (the record's
/// flag stays false either way).
pub open spec fn disp_step(f: FileG, name: Seq<char>, v: SpanG) -> FileG {
    if name == "version"@ {
        FileG { version: Some(v), ..f }
    } else if name == "title"@ {
        FileG { title: Some(v), ..f }
    } else if name == "titletranslit"@ {
        FileG { title_translit: Some(v), ..f }
    } else if name == "subtitle"@ {
        FileG { subtitle: Some(v), ..f }
    } else if name == "subtitletranslit"@ {
        FileG { subtitle_translit: Some(v), ..f }
    } else if name == "artist"@ {
        FileG { artist: Some(v), ..f }
    } else if name == "artisttranslist"@ {
        FileG { artist_translit: Some(v), ..f }
    } else if name == "genre"@ {
        FileG { genre: Some(v), ..f }
    } else if name == "credit"@ {
        FileG { credit: Some(v), ..f }
    } else if name == "banner"@ {
        FileG { banner: Some(v), ..f }
    } else if name == "background"@ {
        FileG { background: Some(v), ..f }
    } else if name == "lyricspath"@ {
        FileG { lyrics_path: Some(v), ..f }
    } else if name == "cdtitle"@ {
        FileG { cd_title: Some(v), ..f }
    } else if name == "music"@ {
        FileG { music: Some(v), ..f }
    } else if name == "origin"@ {
        FileG { origin: Some(v), ..f }
    } else if name == "jacket"@ {
        FileG { jacket: Some(v), ..f }
    } else if name == "cdimage"@ {
        FileG { cd_image: Some(v), ..f }
    } else if name == "diskimage"@ {
        FileG { disk_image: Some(v), ..f }
    } else if name == "preview"@ {
        FileG { preview: Some(v), ..f }
    } else if name == "selectable"@ {
        f
    } else if name == "samplestart"@ {
        FileG { sample_start: Some(v), ..f }
    } else if name == "samplelength"@ {
        FileG { sample_length: Some(v), ..f }
    } else if name == "offset"@ {
        FileG { offset: Some(v), ..f }
    } else if name == "displaybpm"@ {
        FileG { display_bpm: Some(v), ..f }
    } else if name == "lastsecondhint"@ {
        FileG { last_second_hint: Some(v), ..f }
    } else if name == "bgchanges"@ {
        FileG { background_changes: Some(v), ..f }
    } else if name == "bgchanges2"@ {
        FileG { background_changes2: Some(v), ..f }
    } else if name == "bgchanges3"@ {
        FileG { background_changes3: Some(v), ..f }
    } else if name == "fgchanges"@ {
        FileG { foreground_changes: Some(v), ..f }
    } else if name == "animations"@ {
        FileG { animations: Some(v), ..f }
    } else if name == "keysounds"@ {
        FileG { keysounds: Some(v), ..f }
    } else if name == "instrumenttracks"@ {
        FileG { instrument_tracks: Some(v), ..f }
    } else if name == "freezes"@ || name == "stops"@ {
        FileG { stops: Some(v), ..f }
    } else if name == "delays"@ {
        FileG { delays: Some(v), ..f }
    } else if name == "fakes"@ {
        FileG { fakes: Some(v), ..f }
    } else if name == "bpms"@ {
        FileG { bpms: Some(v), ..f }
    } else if name == "timesignatures"@ {
        FileG { time_signatures: Some(v), ..f }
    } else if name == "tickcounts"@ {
        FileG { tick_counts: Some(v), ..f }
    } else if name == "attacks"@ {
        FileG { attacks: Some(v), ..f }
    } else if name == "combos"@ {
        FileG { combos: Some(v), ..f }
    } else if name == "speeds"@ {
        FileG { speeds: Some(v), ..f }
    } else if name == "scrolls"@ {
        FileG { scrolls: Some(v), ..f }
    } else if name == "labels"@ {
        FileG { labels: Some(v), ..f }
    } else if name == "notes"@ {
        FileG { notes: Some(v), ..f }
    } else {
        f
    }
}

/// The span routing after the first `n` properties.
pub open spec fn disp_run(props: Seq<(Seq<char>, SpanG)>, n: int) -> FileG
    decreases n,
{
    if n <= 0 {
        file_init()
    } else {
        disp_step(disp_run(props, n - 1), props[n - 1].0, props[n - 1].1)
    }
}

/// The diagnostics one property's decoder records, by name, in the same
/// order the dispatch tests names.
pub open spec fn prop_errors(name: Seq<char>, v: SpanG) -> Seq<ParseError> {
    if name == "version"@ || name == "title"@ || name == "titletranslit"@ || name == "subtitle"@
        || name == "subtitletranslit"@ || name == "artist"@ || name == "artisttranslist"@ || name
        == "genre"@ || name == "credit"@ || name == "banner"@ || name == "background"@ || name
        == "lyricspath"@ || name == "cdtitle"@ || name == "music"@ || name == "origin"@ || name
        == "jacket"@ || name == "cdimage"@ || name == "diskimage"@ || name == "preview"@ || name
        == "selectable"@ {
        Seq::empty()
    } else if name == "samplestart"@ || name == "samplelength"@ || name == "offset"@ {
        number_errors(v, PRECISION_TIME as nat)
    } else if name == "displaybpm"@ {
        range_errors(v, PRECISION_TIME as nat)
    } else if name == "lastsecondhint"@ {
        number_errors(v, PRECISION_TIME as nat)
    } else if name == "bgchanges"@ || name == "bgchanges2"@ || name == "bgchanges3"@ || name
        == "fgchanges"@ || name == "animations"@ {
        arity_errors(value_entries(v, true), 1, 11) + visual_list_errors(kept_groups(v, 1))
    } else if name == "keysounds"@ {
        Seq::empty()
    } else if name == "instrumenttracks"@ {
        arity_errors(value_entries(v, true), 2, 2)
    } else if name == "freezes"@ || name == "stops"@ || name == "delays"@ || name == "fakes"@ {
        arity_errors(value_entries(v, true), 2, 2) + duration_list_errors(kept_groups(v, 2))
    } else if name == "bpms"@ {
        arity_errors(value_entries(v, true), 2, 2) + bpm_list_errors(kept_groups(v, 2))
    } else if name == "timesignatures"@ {
        arity_errors(value_entries(v, true), 3, 3) + signature_list_errors(kept_groups(v, 3))
    } else if name == "tickcounts"@ {
        arity_errors(value_entries(v, true), 2, 2) + number_list_errors(kept_groups(v, 2))
    } else if name == "attacks"@ {
        atk_finish(v).errors
    } else if name == "combos"@ {
        arity_errors(value_entries(v, true), 3, 3) + combo_list_errors(kept_groups(v, 3))
    } else if name == "speeds"@ {
        arity_errors(value_entries(v, true), 4, 4) + speed_list_errors(kept_groups(v, 4))
    } else if name == "scrolls"@ {
        arity_errors(value_entries(v, true), 2, 2) + scroll_list_errors(kept_groups(v, 2))
    } else if name == "labels"@ {
        arity_errors(value_entries(v, true), 2, 2) + label_list_errors(kept_groups(v, 2))
    } else if name == "notes"@ {
        ch_run(v, v.text.len() as int).errors
    } else {
        Seq::empty()
    }
}

/// The diagnostics of the first `n` properties' decoders, in order.
pub open spec fn disp_errors(props: Seq<(Seq<char>, SpanG)>, n: int) -> Seq<ParseError>
    decreases n,
{
    if n <= 0 {
        Seq::empty()
    } else {
        disp_errors(props, n - 1) + prop_errors(props[n - 1].0, props[n - 1].1)
    }
}

/// Whether an optional string field holds the trimmed text of its span.
pub open spec fn opt_trim_matches(s: Option<String>, o: Option<SpanG>) -> bool {
    match o {
        Some(v) => s matches Some(x) && x@ == trim_seq(v.text),
        None => s is None,
    }
}

/// Whether an optional number field holds the fixed-precision decode of
/// its span (absent both when the property is absent and when it fails).
pub open spec fn opt_num_matches(x: Option<i64>, o: Option<SpanG>) -> bool {
    match o {
        Some(v) => x == number_value(v.text, PRECISION_TIME as nat),
        None => x is None,
    }
}

/// Whether a decoded chart holds exactly what the chart scanner yields on
/// a span.
pub open spec fn chart_matches(chart: StepmaniaChart, v: SpanG) -> bool {
    let fin = ch_run(v, v.text.len() as int);
    &&& chart.name is None
    &&& chart.chart_style is None
    &&& chart.step_style@ == fin.step_style
    &&& chart.credit@ == fin.credit
    &&& chart.difficulty == fin.difficulty
    &&& chart.meter == fin.meter
    &&& chart.radar_values == fin.radar
    &&& chart.data.column_count == fin.colcount
    &&& rows_view(chart.data.notes@) == ch_rows_final(fin)
}

/// Whether the output record holds exactly the decodes of the spans each
/// of its fields received.
pub open spec fn file_matches(step: StepmaniaFile, f: FileG) -> bool {
    &&& opt_trim_matches(step.version, f.version)
    &&& opt_trim_matches(step.title, f.title)
    &&& opt_trim_matches(step.title_translit, f.title_translit)
    &&& opt_trim_matches(step.subtitle, f.subtitle)
    &&& opt_trim_matches(step.subtitle_translit, f.subtitle_translit)
    &&& opt_trim_matches(step.artist, f.artist)
    &&& opt_trim_matches(step.artist_translit, f.artist_translit)
    &&& opt_trim_matches(step.genre, f.genre)
    &&& opt_trim_matches(step.credit, f.credit)
    &&& opt_trim_matches(step.banner, f.banner)
    &&& opt_trim_matches(step.background, f.background)
    &&& opt_trim_matches(step.lyrics_path, f.lyrics_path)
    &&& opt_trim_matches(step.cd_title, f.cd_title)
    &&& opt_trim_matches(step.music, f.music)
    &&& opt_trim_matches(step.origin, f.origin)
    &&& opt_trim_matches(step.jacket, f.jacket)
    &&& opt_trim_matches(step.cd_image, f.cd_image)
    &&& opt_trim_matches(step.disk_image, f.disk_image)
    &&& opt_trim_matches(step.preview, f.preview)
    &&& opt_num_matches(step.sample_start, f.sample_start)
    &&& opt_num_matches(step.sample_length, f.sample_length)
    &&& opt_num_matches(step.last_second_hint, f.last_second_hint)
    &&& opt_num_matches(step.offset, f.offset)
    &&& match f.display_bpm {
        Some(v) => step.display_bpm == range_value(v.text, PRECISION_TIME as nat),
        None => step.display_bpm is None,
    }
    &&& step.selectable == false
    &&& match f.instrument_tracks {
        Some(v) => instruments_match(step.instrument_tracks@, kept_groups(v, 2)),
        None => step.instrument_tracks@.len() == 0,
    }
    &&& match f.background_changes {
        Some(v) => visuals_match(step.background_changes@, kept_groups(v, 1)),
        None => step.background_changes@.len() == 0,
    }
    &&& match f.background_changes2 {
        Some(v) => visuals_match(step.background_changes2@, kept_groups(v, 1)),
        None => step.background_changes2@.len() == 0,
    }
    &&& match f.background_changes3 {
        Some(v) => visuals_match(step.background_changes3@, kept_groups(v, 1)),
        None => step.background_changes3@.len() == 0,
    }
    &&& match f.animations {
        Some(v) => visuals_match(step.animations@, kept_groups(v, 1)),
        None => step.animations@.len() == 0,
    }
    &&& match f.foreground_changes {
        Some(v) => visuals_match(step.foreground_changes@, kept_groups(v, 1)),
        None => step.foreground_changes@.len() == 0,
    }
    &&& match f.keysounds {
        Some(v) => strings_view(step.keysounds@) == string_list(value_entries(v, false)),
        None => step.keysounds@.len() == 0,
    }
    &&& match f.stops {
        Some(v) => step.stops@ == duration_list(kept_groups(v, 2)),
        None => step.stops@ == Seq::<StepmaniaTimedDuration>::empty(),
    }
    &&& match f.delays {
        Some(v) => step.delays@ == duration_list(kept_groups(v, 2)),
        None => step.delays@ == Seq::<StepmaniaTimedDuration>::empty(),
    }
    &&& match f.fakes {
        Some(v) => step.fakes@ == duration_list(kept_groups(v, 2)),
        None => step.fakes@ == Seq::<StepmaniaTimedDuration>::empty(),
    }
    &&& match f.bpms {
        Some(v) => step.bpms@ == bpm_list(kept_groups(v, 2)),
        None => step.bpms@ == Seq::<StepmaniaTimedBPM>::empty(),
    }
    &&& match f.time_signatures {
        Some(v) => step.time_signatures@ == signature_list(kept_groups(v, 3)),
        None => step.time_signatures@ == Seq::<StepmaniaTimedTimeSignature>::empty(),
    }
    &&& match f.attacks {
        Some(v) => attacks_view(step.attacks@) == atk_finish(v).list && forall|k: int|
            0 <= k < step.attacks@.len() ==> (#[trigger] step.attacks@[k]).modifiers@.len() == 0,
        None => step.attacks@.len() == 0,
    }
    &&& match f.tick_counts {
        Some(v) => step.tick_counts@ == number_list(kept_groups(v, 2)),
        None => step.tick_counts@ == Seq::<StepmaniaTimedNumber>::empty(),
    }
    &&& match f.combos {
        Some(v) => step.combos@ == combo_list(kept_groups(v, 3)),
        None => step.combos@ == Seq::<StepmaniaTimedComboChange>::empty(),
    }
    &&& match f.speeds {
        Some(v) => step.speeds@ == speed_list(kept_groups(v, 4)),
        None => step.speeds@ == Seq::<StepmaniaTimedSpeedChange>::empty(),
    }
    &&& match f.scrolls {
        Some(v) => step.scrolls@ == scroll_list(kept_groups(v, 2)),
        None => step.scrolls@ == Seq::<StepmaniaTimedScrollSpeedChange>::empty(),
    }
    &&& step.warps@ == Seq::<StepmaniaWarp>::empty()
    &&& match f.labels {
        Some(v) => labels_match(step.labels@, label_list(kept_groups(v, 2))),
        None => step.labels@.len() == 0,
    }
    &&& match f.notes {
        Some(v) => step.notes matches Some(chart) && chart_matches(chart, v),
        None => step.notes is None,
    }
}

impl StepmaniaParser {
    /// Routes one property to its field, as [`disp_step`] describes, and
    /// records that property's decode diagnostics ([`prop_errors`]).
    #[verifier::spinoff_prover]
    #[verifier::rlimit(100)]
    fn dispatch_one(
        &mut self,
        step: &mut StepmaniaFile,
        name: &String,
        value: UnparsedPropertyValue,
        Ghost(f): Ghost<FileG>,
    )
        requires
            file_matches(*old(step), f),
        ensures
            file_matches(*final (step), disp_step(f, name@, value@)),
            final (self).errors@ == old(self).errors@ + prop_errors(name@, value@),
            final (self).latest_errors@ == old(self).latest_errors@,
            same_scan_fields(*final (self), *old(self)),
    {
        if string_eq_str(name, "version") {
            step.version = Some(crate::mappers::trimmed_string(&value));
        } else if string_eq_str(name, "title") {
            step.title = Some(crate::mappers::trimmed_string(&value));
        } else if string_eq_str(name, "titletranslit") {
            step.title_translit = Some(crate::mappers::trimmed_string(&value));
        } else if string_eq_str(name, "subtitle") {
            step.subtitle = Some(crate::mappers::trimmed_string(&value));
        } else if string_eq_str(name, "subtitletranslit") {
            step.subtitle_translit = Some(crate::mappers::trimmed_string(&value));
        } else if string_eq_str(name, "artist") {
            step.artist = Some(crate::mappers::trimmed_string(&value));
        } else if string_eq_str(name, "artisttranslist") {
            step.artist_translit = Some(crate::mappers::trimmed_string(&value));
        } else if string_eq_str(name, "genre") {
            step.genre = Some(crate::mappers::trimmed_string(&value));
        } else if string_eq_str(name, "credit") {
            step.credit = Some(crate::mappers::trimmed_string(&value));
        } else if string_eq_str(name, "banner") {
            step.banner = Some(crate::mappers::trimmed_string(&value));
        } else if string_eq_str(name, "background") {
            step.background = Some(crate::mappers::trimmed_string(&value));
        } else if string_eq_str(name, "lyricspath") {
            step.lyrics_path = Some(crate::mappers::trimmed_string(&value));
        } else if string_eq_str(name, "cdtitle") {
            step.cd_title = Some(crate::mappers::trimmed_string(&value));
        } else if string_eq_str(name, "music") {
            step.music = Some(crate::mappers::trimmed_string(&value));
        } else if string_eq_str(name, "origin") {
            step.origin = Some(crate::mappers::trimmed_string(&value));
        } else if string_eq_str(name, "jacket") {
            step.jacket = Some(crate::mappers::trimmed_string(&value));
        } else if string_eq_str(name, "cdimage") {
            step.cd_image = Some(crate::mappers::trimmed_string(&value));
        } else if string_eq_str(name, "diskimage") {
            step.disk_image = Some(crate::mappers::trimmed_string(&value));
        } else if string_eq_str(name, "preview") {
            step.preview = Some(crate::mappers::trimmed_string(&value));
        } else if string_eq_str(name, "selectable") {
            // Known tokens (`yes`, `roulette`, `es`, `omes`, `1`) leave the
            // flag alone; anything else resets it.  The flag starts false,
            // so it is false either way.
            let trimmed = crate::mappers::trimmed_string(&value);
            let chars = crate::text::str_chars(trimmed.as_str());
            let lowered = crate::text::chars_string_lower(chars.as_slice(), 0, chars.len());
            if string_eq_str(&lowered, "yes") || string_eq_str(&lowered, "roulette")
                || string_eq_str(&lowered, "es") || string_eq_str(&lowered, "omes")
                || string_eq_str(&lowered, "1") {
            } else {
                step.selectable = false;
            }
        } else if string_eq_str(name, "samplestart") {
            step.sample_start = self.parse_to_number(value, PRECISION_TIME);
        } else if string_eq_str(name, "samplelength") {
            step.sample_length = self.parse_to_number(value, PRECISION_TIME);
        } else if string_eq_str(name, "offset") {
            step.offset = self.parse_to_number(value, PRECISION_TIME);
        } else if string_eq_str(name, "displaybpm") {
            step.display_bpm = self.parse_to_number_range(value, PRECISION_TIME);
        } else if string_eq_str(name, "lastsecondhint") {
            step.last_second_hint = self.parse_to_number(value, PRECISION_TIME);
        } else if string_eq_str(name, "bgchanges") {
            step.background_changes = self.parse_visual_list(&value);
        } else if string_eq_str(name, "bgchanges2") {
            step.background_changes2 = self.parse_visual_list(&value);
        } else if string_eq_str(name, "bgchanges3") {
            step.background_changes3 = self.parse_visual_list(&value);
        } else if string_eq_str(name, "fgchanges") {
            step.foreground_changes = self.parse_visual_list(&value);
        } else if string_eq_str(name, "animations") {
            step.animations = self.parse_visual_list(&value);
        } else if string_eq_str(name, "keysounds") {
            step.keysounds = self.parse_to_string_list(value);
        } else if string_eq_str(name, "instrumenttracks") {
            step.instrument_tracks = self.parse_instrument_list(&value);
        } else if string_eq_str(name, "freezes") || string_eq_str(name, "stops") {
            step.stops = self.parse_duration_list(&value);
        } else if string_eq_str(name, "delays") {
            step.delays = self.parse_duration_list(&value);
        } else if string_eq_str(name, "fakes") {
            step.fakes = self.parse_duration_list(&value);
        } else if string_eq_str(name, "bpms") {
            step.bpms = self.parse_bpm_list(&value);
        } else if string_eq_str(name, "timesignatures") {
            step.time_signatures = self.parse_signature_list(&value);
        } else if string_eq_str(name, "tickcounts") {
            step.tick_counts = self.parse_number_list(&value);
        } else if string_eq_str(name, "attacks") {
            step.attacks = self.parse_attacks(value);
        } else if string_eq_str(name, "combos") {
            step.combos = self.parse_combo_list(&value);
        } else if string_eq_str(name, "speeds") {
            step.speeds = self.parse_speed_list(&value);
        } else if string_eq_str(name, "scrolls") {
            step.scrolls = self.parse_scroll_list(&value);
        } else if string_eq_str(name, "labels") {
            step.labels = self.parse_label_list(&value);
        } else if string_eq_str(name, "notes") {
            step.notes = self.parse_to_chart(value);
        } else {
            // Unknown property names are silently ignored.
        }
    }

    /// Parses a whole chart file: the lexer splits the text into
    /// properties, and every property is routed to its decoder.  The
    /// returned record holds exactly the decodes of the lexed spans
    /// ([`file_matches`] over [`disp_run`]); the parser's diagnostics are
    /// the lexer's followed by each property's decode diagnostics in
    /// property order ([`disp_errors`]).  Parsing never aborts.
    #[verifier::spinoff_prover]
    #[verifier::rlimit(100)]
    #[verifier::loop_isolation(false)]
    pub fn parse_from_string(&mut self, input: &String) -> (step: StepmaniaFile)
        requires
            old(self).start_pos == 0,
            old(self).latest_errors@ == Seq::<ParseError>::empty(),
        ensures
            ({
                let fin = lex_finish(
                    lex_run(lex_init(*old(self)), input@, input@.len() as int),
                    input@.len() as usize,
                );
                &&& file_matches(step, disp_run(fin.props, fin.props.len() as int))
                &&& final (self).errors@ == fin.errors + disp_errors(
                    fin.props,
                    fin.props.len() as int,
                )
                &&& final (self).latest_errors@ == Seq::<ParseError>::empty()
            }),
    {
        let ghost fin = lex_finish(
            lex_run(lex_init(*self), input@, input@.len() as int),
            input@.len() as usize,
        );
        let mut map = self.parse_to_property_map(input);
        let ghost props = fin.props;
        let ghost lex_errors = self.errors@;

        let mut step = StepmaniaFile {
            version: None,
            title: None,
            title_translit: None,
            subtitle: None,
            subtitle_translit: None,
            artist: None,
            artist_translit: None,
            genre: None,
            credit: None,
            banner: None,
            background: None,
            lyrics_path: None,
            cd_title: None,
            music: None,
            origin: None,
            jacket: None,
            cd_image: None,
            disk_image: None,
            preview: None,
            sample_start: None,
            sample_length: None,
            last_second_hint: None,
            display_bpm: None,
            selectable: false,
            instrument_tracks: Vec::new(),
            background_changes: Vec::new(),
            background_changes2: Vec::new(),
            background_changes3: Vec::new(),
            animations: Vec::new(),
            foreground_changes: Vec::new(),
            offset: None,
            keysounds: Vec::new(),
            stops: Vec::new(),
            delays: Vec::new(),
            fakes: Vec::new(),
            bpms: Vec::new(),
            time_signatures: Vec::new(),
            attacks: Vec::new(),
            tick_counts: Vec::new(),
            combos: Vec::new(),
            speeds: Vec::new(),
            scrolls: Vec::new(),
            warps: Vec::new(),
            labels: Vec::new(),
            notes: None,
        };
        proof {
            assert(step.stops@ =~= Seq::<StepmaniaTimedDuration>::empty());
            assert(step.delays@ =~= Seq::<StepmaniaTimedDuration>::empty());
            assert(step.fakes@ =~= Seq::<StepmaniaTimedDuration>::empty());
            assert(step.bpms@ =~= Seq::<StepmaniaTimedBPM>::empty());
            assert(step.time_signatures@ =~= Seq::<StepmaniaTimedTimeSignature>::empty());
            assert(step.tick_counts@ =~= Seq::<StepmaniaTimedNumber>::empty());
            assert(step.combos@ =~= Seq::<StepmaniaTimedComboChange>::empty());
            assert(step.speeds@ =~= Seq::<StepmaniaTimedSpeedChange>::empty());
            assert(step.scrolls@ =~= Seq::<StepmaniaTimedScrollSpeedChange>::empty());
            assert(step.warps@ =~= Seq::<StepmaniaWarp>::empty());
            assert(file_matches(step, file_init()));
        }

        let ghost mut k: int = 0;
        proof {
            assert(props_view(map@) =~= props.skip(0));
            assert(disp_errors(props, 0) =~= Seq::<ParseError>::empty());
        }
        while map.len() > 0
            invariant
                0 <= k <= props.len(),
                props_view(map@) == props.skip(k),
                map@.len() == props.len() - k,
                file_matches(step, disp_run(props, k)),
                self.errors@ == lex_errors + disp_errors(props, k),
                lex_errors == fin.errors,
                self.latest_errors@ == Seq::<ParseError>::empty(),
            decreases map@.len(),
        {
            let ghost map_pre = map@;
            let entry = map.remove(0);
            proof {
                assert(entry@ == props_view(map_pre)[0]);
                assert(props_view(map_pre)[0] == props[k]);
                assert(props_view(map@) =~= props_view(map_pre).drop_first());
                assert(props_view(map@) =~= props.skip(k + 1));
            }
            self.dispatch_one(&mut step, &entry.name, entry.value, Ghost(disp_run(props, k)));
            proof {
                assert(disp_run(props, k + 1) == disp_step(disp_run(props, k), props[k].0, props[
                    k].1));
                assert(self.errors@ =~= lex_errors + disp_errors(props, k + 1));
                k = k + 1;
            }
        }
        proof {
            assert(k == props.len());
        }
        step
    }
}

} // verus!
