//! List decoding: one property value split into groups, each mapped to a
//! record; groups whose mandatory fields fail are dropped, and the
//! diagnostics of every group are kept in order.

use vstd::prelude::*;

use crate::common::ParseError;
use crate::lexer::{same_scan_fields, StepmaniaParser};
use crate::mappers::{
    combo_change_errors,
    combo_change_value,
    scroll_speed_errors,
    scroll_speed_value,
    speed_change_errors,
    speed_change_value,
    time_signature_errors,
    time_signature_value,
    timed_bpm_errors,
    timed_bpm_value,
    timed_duration_errors,
    timed_duration_value,
    timed_label_beat,
    timed_label_errors,
    timed_number_errors,
    timed_number_value,
    visual_change_errors,
    visual_matches,
};
use crate::records::{
    StepmaniaInstrumentTrack,
    StepmaniaTimedBPM,
    StepmaniaTimedComboChange,
    StepmaniaTimedDuration,
    StepmaniaTimedLabel,
    StepmaniaTimedNumber,
    StepmaniaTimedScrollSpeedChange,
    StepmaniaTimedSpeedChange,
    StepmaniaTimedTimeSignature,
    StepmaniaTimedVisualChange,
};
use crate::span::{SpanG, UnparsedPropertyValue};
use crate::text::trim_seq;
use crate::values::{arity_errors, arity_keep, value_entries};

verus! {

/// The groups a list-valued span yields after the arity check.
pub open spec fn kept_groups(v: SpanG, min: nat) -> Seq<Seq<SpanG>> {
    arity_keep(value_entries(v, true), min)
}

/// The timed durations of the kept groups, dropping failures.
pub open spec fn duration_list(gs: Seq<Seq<SpanG>>) -> Seq<StepmaniaTimedDuration>
    decreases gs.len(),
{
    if gs.len() == 0 {
        Seq::empty()
    } else {
        duration_list(gs.drop_last()) + match timed_duration_value(gs.last()) {
            Some(x) => seq![x],
            None => Seq::empty(),
        }
    }
}

/// The decode diagnostics of the kept groups, in order.
pub open spec fn duration_list_errors(gs: Seq<Seq<SpanG>>) -> Seq<ParseError>
    decreases gs.len(),
{
    if gs.len() == 0 {
        Seq::empty()
    } else {
        duration_list_errors(gs.drop_last()) + timed_duration_errors(gs.last())
    }
}

/// The timed BPM changes of the kept groups, dropping failures.
pub open spec fn bpm_list(gs: Seq<Seq<SpanG>>) -> Seq<StepmaniaTimedBPM>
    decreases gs.len(),
{
    if gs.len() == 0 {
        Seq::empty()
    } else {
        bpm_list(gs.drop_last()) + match timed_bpm_value(gs.last()) {
            Some(x) => seq![x],
            None => Seq::empty(),
        }
    }
}

pub open spec fn bpm_list_errors(gs: Seq<Seq<SpanG>>) -> Seq<ParseError>
    decreases gs.len(),
{
    if gs.len() == 0 {
        Seq::empty()
    } else {
        bpm_list_errors(gs.drop_last()) + timed_bpm_errors(gs.last())
    }
}

/// The time signatures of the kept groups, dropping failures.
pub open spec fn signature_list(gs: Seq<Seq<SpanG>>) -> Seq<StepmaniaTimedTimeSignature>
    decreases gs.len(),
{
    if gs.len() == 0 {
        Seq::empty()
    } else {
        signature_list(gs.drop_last()) + match time_signature_value(gs.last()) {
            Some(x) => seq![x],
            None => Seq::empty(),
        }
    }
}

pub open spec fn signature_list_errors(gs: Seq<Seq<SpanG>>) -> Seq<ParseError>
    decreases gs.len(),
{
    if gs.len() == 0 {
        Seq::empty()
    } else {
        signature_list_errors(gs.drop_last()) + time_signature_errors(gs.last())
    }
}

/// The timed numbers of the kept groups, dropping failures.
pub open spec fn number_list(gs: Seq<Seq<SpanG>>) -> Seq<StepmaniaTimedNumber>
    decreases gs.len(),
{
    if gs.len() == 0 {
        Seq::empty()
    } else {
        number_list(gs.drop_last()) + match timed_number_value(gs.last()) {
            Some(x) => seq![x],
            None => Seq::empty(),
        }
    }
}

pub open spec fn number_list_errors(gs: Seq<Seq<SpanG>>) -> Seq<ParseError>
    decreases gs.len(),
{
    if gs.len() == 0 {
        Seq::empty()
    } else {
        number_list_errors(gs.drop_last()) + timed_number_errors(gs.last())
    }
}

/// The combo changes of the kept groups, dropping failures.
pub open spec fn combo_list(gs: Seq<Seq<SpanG>>) -> Seq<StepmaniaTimedComboChange>
    decreases gs.len(),
{
    if gs.len() == 0 {
        Seq::empty()
    } else {
        combo_list(gs.drop_last()) + match combo_change_value(gs.last()) {
            Some(x) => seq![x],
            None => Seq::empty(),
        }
    }
}

pub open spec fn combo_list_errors(gs: Seq<Seq<SpanG>>) -> Seq<ParseError>
    decreases gs.len(),
{
    if gs.len() == 0 {
        Seq::empty()
    } else {
        combo_list_errors(gs.drop_last()) + combo_change_errors(gs.last())
    }
}

/// The speed changes of the kept groups, dropping failures.
pub open spec fn speed_list(gs: Seq<Seq<SpanG>>) -> Seq<StepmaniaTimedSpeedChange>
    decreases gs.len(),
{
    if gs.len() == 0 {
        Seq::empty()
    } else {
        speed_list(gs.drop_last()) + match speed_change_value(gs.last()) {
            Some(x) => seq![x],
            None => Seq::empty(),
        }
    }
}

pub open spec fn speed_list_errors(gs: Seq<Seq<SpanG>>) -> Seq<ParseError>
    decreases gs.len(),
{
    if gs.len() == 0 {
        Seq::empty()
    } else {
        speed_list_errors(gs.drop_last()) + speed_change_errors(gs.last())
    }
}

/// The scroll-speed changes of the kept groups, dropping failures.
pub open spec fn scroll_list(gs: Seq<Seq<SpanG>>) -> Seq<StepmaniaTimedScrollSpeedChange>
    decreases gs.len(),
{
    if gs.len() == 0 {
        Seq::empty()
    } else {
        scroll_list(gs.drop_last()) + match scroll_speed_value(gs.last()) {
            Some(x) => seq![x],
            None => Seq::empty(),
        }
    }
}

pub open spec fn scroll_list_errors(gs: Seq<Seq<SpanG>>) -> Seq<ParseError>
    decreases gs.len(),
{
    if gs.len() == 0 {
        Seq::empty()
    } else {
        scroll_list_errors(gs.drop_last()) + scroll_speed_errors(gs.last())
    }
}

/// The beats and trimmed texts of the labels of the kept groups, dropping
/// failures.
pub open spec fn label_list(gs: Seq<Seq<SpanG>>) -> Seq<(i64, Seq<char>)>
    decreases gs.len(),
{
    if gs.len() == 0 {
        Seq::empty()
    } else {
        label_list(gs.drop_last()) + match timed_label_beat(gs.last()) {
            Some(b) => seq![(b, trim_seq(gs.last()[1].text))],
            None => Seq::empty(),
        }
    }
}

pub open spec fn label_list_errors(gs: Seq<Seq<SpanG>>) -> Seq<ParseError>
    decreases gs.len(),
{
    if gs.len() == 0 {
        Seq::empty()
    } else {
        label_list_errors(gs.drop_last()) + timed_label_errors(gs.last())
    }
}

/// The diagnostics of the visual-change mapper over the kept groups.
pub open spec fn visual_list_errors(gs: Seq<Seq<SpanG>>) -> Seq<ParseError>
    decreases gs.len(),
{
    if gs.len() == 0 {
        Seq::empty()
    } else {
        visual_list_errors(gs.drop_last()) + visual_change_errors(gs.last())
    }
}

/// Whether a decoded label list holds exactly the decoded beats and texts.
pub open spec fn labels_match(
    list: Seq<StepmaniaTimedLabel>,
    spec_list: Seq<(i64, Seq<char>)>,
) -> bool {
    &&& list.len() == spec_list.len()
    &&& forall|k: int|
        0 <= k < list.len() ==> (#[trigger] list[k]).beat == spec_list[k].0 && list[k].label@
            == spec_list[k].1
}

/// Whether a decoded visual-change list holds one record per kept group.
pub open spec fn visuals_match(list: Seq<StepmaniaTimedVisualChange>, gs: Seq<Seq<SpanG>>) -> bool {
    &&& list.len() == gs.len()
    &&& forall|k: int| 0 <= k < list.len() ==> visual_matches(#[trigger] list[k], gs[k])
}

/// Whether a decoded instrument-track list holds one record per kept
/// group: the trimmed first field and the trimmed second field.
pub open spec fn instruments_match(
    list: Seq<StepmaniaInstrumentTrack>,
    gs: Seq<Seq<SpanG>>,
) -> bool {
    &&& list.len() == gs.len()
    &&& forall|k: int|
        0 <= k < list.len() ==> (#[trigger] list[k]).instrument@ == trim_seq(gs[k][0].text) && (
        list[k]).file@ == trim_seq(gs[k][1].text)
}

impl StepmaniaParser {
    /// Decodes a span into timed durations: groups of `beat, duration`.
    #[verifier::loop_isolation(false)]
    pub fn parse_duration_list(&mut self, value: &UnparsedPropertyValue) -> (r: Vec<
        StepmaniaTimedDuration,
    >)
        ensures
            r@ == duration_list(kept_groups(value@, 2)),
            final (self).errors@ == old(self).errors@ + arity_errors(
                value_entries(value@, true),
                2,
                2,
            ) + duration_list_errors(kept_groups(value@, 2)),
            final (self).latest_errors@ == old(self).latest_errors@,
            same_scan_fields(*final (self), *old(self)),
    {
        let mut groups = self.parse_value_group(value, 2, 2);
        let ghost all = kept_groups(value@, 2);
        proof {
            crate::values::lemma_arity_keep_min(value_entries(value@, true), 2);
        }
        let mut out: Vec<StepmaniaTimedDuration> = Vec::new();
        let ghost mut k: int = 0;
        proof {
            assert(crate::values::groups_view(groups@) =~= all.skip(0));
            assert(out@ =~= duration_list(all.take(0)));
            assert(duration_list_errors(all.take(0)) =~= Seq::<ParseError>::empty());
        }
        while groups.len() > 0
            invariant
                0 <= k <= all.len(),
                crate::values::groups_view(groups@) == all.skip(k),
                groups@.len() == all.len() - k,
                out@ == duration_list(all.take(k)),
                self.errors@ == old(self).errors@ + arity_errors(value_entries(value@, true), 2, 2)
                    + duration_list_errors(all.take(k)),
                self.latest_errors@ == old(self).latest_errors@,
                same_scan_fields(*self, *old(self)),
            decreases groups@.len(),
        {
            let ghost groups_pre = groups@;
            let g = groups.remove(0);
            proof {
                assert(crate::values::fields_view(g@) == crate::values::groups_view(
                    groups_pre,
                )[0]);
                assert(crate::values::groups_view(groups_pre)[0] == all[k]);
                assert(crate::values::groups_view(groups@) =~= crate::values::groups_view(
                    groups_pre,
                ).drop_first());
                assert(crate::values::groups_view(groups@) =~= all.skip(k + 1));
                assert(all.take(k + 1).drop_last() =~= all.take(k));
                assert(all.take(k + 1).last() == all[k]);
                assert(g@.len() == crate::values::fields_view(g@).len());
            }
            match self.parse_to_timed_duration(g) {
                Some(x) => {
                    out.push(x);
                },
                None => {},
            }
            proof {
                assert(out@ =~= duration_list(all.take(k + 1)));
                assert(self.errors@ =~= old(self).errors@ + arity_errors(
                    value_entries(value@, true),
                    2,
                    2,
                ) + duration_list_errors(all.take(k + 1)));
                k = k + 1;
            }
        }
        proof {
            assert(all.take(k) =~= all);
        }
        out
    }

    /// Decodes a span into timed BPM changes: groups of `beat, bpm`.
    #[verifier::loop_isolation(false)]
    pub fn parse_bpm_list(&mut self, value: &UnparsedPropertyValue) -> (r: Vec<StepmaniaTimedBPM>)
        ensures
            r@ == bpm_list(kept_groups(value@, 2)),
            final (self).errors@ == old(self).errors@ + arity_errors(
                value_entries(value@, true),
                2,
                2,
            ) + bpm_list_errors(kept_groups(value@, 2)),
            final (self).latest_errors@ == old(self).latest_errors@,
            same_scan_fields(*final (self), *old(self)),
    {
        let mut groups = self.parse_value_group(value, 2, 2);
        let ghost all = kept_groups(value@, 2);
        proof {
            crate::values::lemma_arity_keep_min(value_entries(value@, true), 2);
        }
        let mut out: Vec<StepmaniaTimedBPM> = Vec::new();
        let ghost mut k: int = 0;
        proof {
            assert(crate::values::groups_view(groups@) =~= all.skip(0));
            assert(out@ =~= bpm_list(all.take(0)));
            assert(bpm_list_errors(all.take(0)) =~= Seq::<ParseError>::empty());
        }
        while groups.len() > 0
            invariant
                0 <= k <= all.len(),
                crate::values::groups_view(groups@) == all.skip(k),
                groups@.len() == all.len() - k,
                out@ == bpm_list(all.take(k)),
                self.errors@ == old(self).errors@ + arity_errors(value_entries(value@, true), 2, 2)
                    + bpm_list_errors(all.take(k)),
                self.latest_errors@ == old(self).latest_errors@,
                same_scan_fields(*self, *old(self)),
            decreases groups@.len(),
        {
            let ghost groups_pre = groups@;
            let g = groups.remove(0);
            proof {
                assert(crate::values::fields_view(g@) == crate::values::groups_view(
                    groups_pre,
                )[0]);
                assert(crate::values::groups_view(groups_pre)[0] == all[k]);
                assert(crate::values::groups_view(groups@) =~= crate::values::groups_view(
                    groups_pre,
                ).drop_first());
                assert(crate::values::groups_view(groups@) =~= all.skip(k + 1));
                assert(all.take(k + 1).drop_last() =~= all.take(k));
                assert(all.take(k + 1).last() == all[k]);
                assert(g@.len() == crate::values::fields_view(g@).len());
            }
            match self.parse_to_timed_bpm(g) {
                Some(x) => {
                    out.push(x);
                },
                None => {},
            }
            proof {
                assert(out@ =~= bpm_list(all.take(k + 1)));
                assert(self.errors@ =~= old(self).errors@ + arity_errors(
                    value_entries(value@, true),
                    2,
                    2,
                ) + bpm_list_errors(all.take(k + 1)));
                k = k + 1;
            }
        }
        proof {
            assert(all.take(k) =~= all);
        }
        out
    }

    /// Decodes a span into time signatures: groups of
    /// `beat, numerator, denominator`.
    #[verifier::loop_isolation(false)]
    pub fn parse_signature_list(&mut self, value: &UnparsedPropertyValue) -> (r: Vec<
        StepmaniaTimedTimeSignature,
    >)
        ensures
            r@ == signature_list(kept_groups(value@, 3)),
            final (self).errors@ == old(self).errors@ + arity_errors(
                value_entries(value@, true),
                3,
                3,
            ) + signature_list_errors(kept_groups(value@, 3)),
            final (self).latest_errors@ == old(self).latest_errors@,
            same_scan_fields(*final (self), *old(self)),
    {
        let mut groups = self.parse_value_group(value, 3, 3);
        let ghost all = kept_groups(value@, 3);
        proof {
            crate::values::lemma_arity_keep_min(value_entries(value@, true), 3);
        }
        let mut out: Vec<StepmaniaTimedTimeSignature> = Vec::new();
        let ghost mut k: int = 0;
        proof {
            assert(crate::values::groups_view(groups@) =~= all.skip(0));
            assert(out@ =~= signature_list(all.take(0)));
            assert(signature_list_errors(all.take(0)) =~= Seq::<ParseError>::empty());
        }
        while groups.len() > 0
            invariant
                0 <= k <= all.len(),
                crate::values::groups_view(groups@) == all.skip(k),
                groups@.len() == all.len() - k,
                out@ == signature_list(all.take(k)),
                self.errors@ == old(self).errors@ + arity_errors(value_entries(value@, true), 3, 3)
                    + signature_list_errors(all.take(k)),
                self.latest_errors@ == old(self).latest_errors@,
                same_scan_fields(*self, *old(self)),
            decreases groups@.len(),
        {
            let ghost groups_pre = groups@;
            let g = groups.remove(0);
            proof {
                assert(crate::values::fields_view(g@) == crate::values::groups_view(
                    groups_pre,
                )[0]);
                assert(crate::values::groups_view(groups_pre)[0] == all[k]);
                assert(crate::values::groups_view(groups@) =~= crate::values::groups_view(
                    groups_pre,
                ).drop_first());
                assert(crate::values::groups_view(groups@) =~= all.skip(k + 1));
                assert(all.take(k + 1).drop_last() =~= all.take(k));
                assert(all.take(k + 1).last() == all[k]);
                assert(g@.len() == crate::values::fields_view(g@).len());
            }
            match self.parse_to_timed_time_signature(g) {
                Some(x) => {
                    out.push(x);
                },
                None => {},
            }
            proof {
                assert(out@ =~= signature_list(all.take(k + 1)));
                assert(self.errors@ =~= old(self).errors@ + arity_errors(
                    value_entries(value@, true),
                    3,
                    3,
                ) + signature_list_errors(all.take(k + 1)));
                k = k + 1;
            }
        }
        proof {
            assert(all.take(k) =~= all);
        }
        out
    }

    /// Decodes a span into timed numbers: groups of `beat, value`.
    #[verifier::loop_isolation(false)]
    pub fn parse_number_list(&mut self, value: &UnparsedPropertyValue) -> (r: Vec<
        StepmaniaTimedNumber,
    >)
        ensures
            r@ == number_list(kept_groups(value@, 2)),
            final (self).errors@ == old(self).errors@ + arity_errors(
                value_entries(value@, true),
                2,
                2,
            ) + number_list_errors(kept_groups(value@, 2)),
            final (self).latest_errors@ == old(self).latest_errors@,
            same_scan_fields(*final (self), *old(self)),
    {
        let mut groups = self.parse_value_group(value, 2, 2);
        let ghost all = kept_groups(value@, 2);
        proof {
            crate::values::lemma_arity_keep_min(value_entries(value@, true), 2);
        }
        let mut out: Vec<StepmaniaTimedNumber> = Vec::new();
        let ghost mut k: int = 0;
        proof {
            assert(crate::values::groups_view(groups@) =~= all.skip(0));
            assert(out@ =~= number_list(all.take(0)));
            assert(number_list_errors(all.take(0)) =~= Seq::<ParseError>::empty());
        }
        while groups.len() > 0
            invariant
                0 <= k <= all.len(),
                crate::values::groups_view(groups@) == all.skip(k),
                groups@.len() == all.len() - k,
                out@ == number_list(all.take(k)),
                self.errors@ == old(self).errors@ + arity_errors(value_entries(value@, true), 2, 2)
                    + number_list_errors(all.take(k)),
                self.latest_errors@ == old(self).latest_errors@,
                same_scan_fields(*self, *old(self)),
            decreases groups@.len(),
        {
            let ghost groups_pre = groups@;
            let g = groups.remove(0);
            proof {
                assert(crate::values::fields_view(g@) == crate::values::groups_view(
                    groups_pre,
                )[0]);
                assert(crate::values::groups_view(groups_pre)[0] == all[k]);
                assert(crate::values::groups_view(groups@) =~= crate::values::groups_view(
                    groups_pre,
                ).drop_first());
                assert(crate::values::groups_view(groups@) =~= all.skip(k + 1));
                assert(all.take(k + 1).drop_last() =~= all.take(k));
                assert(all.take(k + 1).last() == all[k]);
                assert(g@.len() == crate::values::fields_view(g@).len());
            }
            match self.parse_to_timed_number(g) {
                Some(x) => {
                    out.push(x);
                },
                None => {},
            }
            proof {
                assert(out@ =~= number_list(all.take(k + 1)));
                assert(self.errors@ =~= old(self).errors@ + arity_errors(
                    value_entries(value@, true),
                    2,
                    2,
                ) + number_list_errors(all.take(k + 1)));
                k = k + 1;
            }
        }
        proof {
            assert(all.take(k) =~= all);
        }
        out
    }

    /// Decodes a span into combo changes: groups of `beat, hit, miss`.
    #[verifier::loop_isolation(false)]
    pub fn parse_combo_list(&mut self, value: &UnparsedPropertyValue) -> (r: Vec<
        StepmaniaTimedComboChange,
    >)
        ensures
            r@ == combo_list(kept_groups(value@, 3)),
            final (self).errors@ == old(self).errors@ + arity_errors(
                value_entries(value@, true),
                3,
                3,
            ) + combo_list_errors(kept_groups(value@, 3)),
            final (self).latest_errors@ == old(self).latest_errors@,
            same_scan_fields(*final (self), *old(self)),
    {
        let mut groups = self.parse_value_group(value, 3, 3);
        let ghost all = kept_groups(value@, 3);
        proof {
            crate::values::lemma_arity_keep_min(value_entries(value@, true), 3);
        }
        let mut out: Vec<StepmaniaTimedComboChange> = Vec::new();
        let ghost mut k: int = 0;
        proof {
            assert(crate::values::groups_view(groups@) =~= all.skip(0));
            assert(out@ =~= combo_list(all.take(0)));
            assert(combo_list_errors(all.take(0)) =~= Seq::<ParseError>::empty());
        }
        while groups.len() > 0
            invariant
                0 <= k <= all.len(),
                crate::values::groups_view(groups@) == all.skip(k),
                groups@.len() == all.len() - k,
                out@ == combo_list(all.take(k)),
                self.errors@ == old(self).errors@ + arity_errors(value_entries(value@, true), 3, 3)
                    + combo_list_errors(all.take(k)),
                self.latest_errors@ == old(self).latest_errors@,
                same_scan_fields(*self, *old(self)),
            decreases groups@.len(),
        {
            let ghost groups_pre = groups@;
            let g = groups.remove(0);
            proof {
                assert(crate::values::fields_view(g@) == crate::values::groups_view(
                    groups_pre,
                )[0]);
                assert(crate::values::groups_view(groups_pre)[0] == all[k]);
                assert(crate::values::groups_view(groups@) =~= crate::values::groups_view(
                    groups_pre,
                ).drop_first());
                assert(crate::values::groups_view(groups@) =~= all.skip(k + 1));
                assert(all.take(k + 1).drop_last() =~= all.take(k));
                assert(all.take(k + 1).last() == all[k]);
                assert(g@.len() == crate::values::fields_view(g@).len());
            }
            match self.parse_to_timed_combo_change(g) {
                Some(x) => {
                    out.push(x);
                },
                None => {},
            }
            proof {
                assert(out@ =~= combo_list(all.take(k + 1)));
                assert(self.errors@ =~= old(self).errors@ + arity_errors(
                    value_entries(value@, true),
                    3,
                    3,
                ) + combo_list_errors(all.take(k + 1)));
                k = k + 1;
            }
        }
        proof {
            assert(all.take(k) =~= all);
        }
        out
    }

    /// Decodes a span into speed changes: groups of
    /// `beat, ratio, duration, in-seconds`.
    #[verifier::loop_isolation(false)]
    pub fn parse_speed_list(&mut self, value: &UnparsedPropertyValue) -> (r: Vec<
        StepmaniaTimedSpeedChange,
    >)
        ensures
            r@ == speed_list(kept_groups(value@, 4)),
            final (self).errors@ == old(self).errors@ + arity_errors(
                value_entries(value@, true),
                4,
                4,
            ) + speed_list_errors(kept_groups(value@, 4)),
            final (self).latest_errors@ == old(self).latest_errors@,
            same_scan_fields(*final (self), *old(self)),
    {
        let mut groups = self.parse_value_group(value, 4, 4);
        let ghost all = kept_groups(value@, 4);
        proof {
            crate::values::lemma_arity_keep_min(value_entries(value@, true), 4);
        }
        let mut out: Vec<StepmaniaTimedSpeedChange> = Vec::new();
        let ghost mut k: int = 0;
        proof {
            assert(crate::values::groups_view(groups@) =~= all.skip(0));
            assert(out@ =~= speed_list(all.take(0)));
            assert(speed_list_errors(all.take(0)) =~= Seq::<ParseError>::empty());
        }
        while groups.len() > 0
            invariant
                0 <= k <= all.len(),
                crate::values::groups_view(groups@) == all.skip(k),
                groups@.len() == all.len() - k,
                out@ == speed_list(all.take(k)),
                self.errors@ == old(self).errors@ + arity_errors(value_entries(value@, true), 4, 4)
                    + speed_list_errors(all.take(k)),
                self.latest_errors@ == old(self).latest_errors@,
                same_scan_fields(*self, *old(self)),
            decreases groups@.len(),
        {
            let ghost groups_pre = groups@;
            let g = groups.remove(0);
            proof {
                assert(crate::values::fields_view(g@) == crate::values::groups_view(
                    groups_pre,
                )[0]);
                assert(crate::values::groups_view(groups_pre)[0] == all[k]);
                assert(crate::values::groups_view(groups@) =~= crate::values::groups_view(
                    groups_pre,
                ).drop_first());
                assert(crate::values::groups_view(groups@) =~= all.skip(k + 1));
                assert(all.take(k + 1).drop_last() =~= all.take(k));
                assert(all.take(k + 1).last() == all[k]);
                assert(g@.len() == crate::values::fields_view(g@).len());
            }
            match self.parse_to_timed_speed_change(g) {
                Some(x) => {
                    out.push(x);
                },
                None => {},
            }
            proof {
                assert(out@ =~= speed_list(all.take(k + 1)));
                assert(self.errors@ =~= old(self).errors@ + arity_errors(
                    value_entries(value@, true),
                    4,
                    4,
                ) + speed_list_errors(all.take(k + 1)));
                k = k + 1;
            }
        }
        proof {
            assert(all.take(k) =~= all);
        }
        out
    }

    /// Decodes a span into scroll-speed changes: groups of `beat, factor`.
    #[verifier::loop_isolation(false)]
    pub fn parse_scroll_list(&mut self, value: &UnparsedPropertyValue) -> (r: Vec<
        StepmaniaTimedScrollSpeedChange,
    >)
        ensures
            r@ == scroll_list(kept_groups(value@, 2)),
            final (self).errors@ == old(self).errors@ + arity_errors(
                value_entries(value@, true),
                2,
                2,
            ) + scroll_list_errors(kept_groups(value@, 2)),
            final (self).latest_errors@ == old(self).latest_errors@,
            same_scan_fields(*final (self), *old(self)),
    {
        let mut groups = self.parse_value_group(value, 2, 2);
        let ghost all = kept_groups(value@, 2);
        proof {
            crate::values::lemma_arity_keep_min(value_entries(value@, true), 2);
        }
        let mut out: Vec<StepmaniaTimedScrollSpeedChange> = Vec::new();
        let ghost mut k: int = 0;
        proof {
            assert(crate::values::groups_view(groups@) =~= all.skip(0));
            assert(out@ =~= scroll_list(all.take(0)));
            assert(scroll_list_errors(all.take(0)) =~= Seq::<ParseError>::empty());
        }
        while groups.len() > 0
            invariant
                0 <= k <= all.len(),
                crate::values::groups_view(groups@) == all.skip(k),
                groups@.len() == all.len() - k,
                out@ == scroll_list(all.take(k)),
                self.errors@ == old(self).errors@ + arity_errors(value_entries(value@, true), 2, 2)
                    + scroll_list_errors(all.take(k)),
                self.latest_errors@ == old(self).latest_errors@,
                same_scan_fields(*self, *old(self)),
            decreases groups@.len(),
        {
            let ghost groups_pre = groups@;
            let g = groups.remove(0);
            proof {
                assert(crate::values::fields_view(g@) == crate::values::groups_view(
                    groups_pre,
                )[0]);
                assert(crate::values::groups_view(groups_pre)[0] == all[k]);
                assert(crate::values::groups_view(groups@) =~= crate::values::groups_view(
                    groups_pre,
                ).drop_first());
                assert(crate::values::groups_view(groups@) =~= all.skip(k + 1));
                assert(all.take(k + 1).drop_last() =~= all.take(k));
                assert(all.take(k + 1).last() == all[k]);
                assert(g@.len() == crate::values::fields_view(g@).len());
            }
            match self.parse_to_timed_scroll_speed_change(g) {
                Some(x) => {
                    out.push(x);
                },
                None => {},
            }
            proof {
                assert(out@ =~= scroll_list(all.take(k + 1)));
                assert(self.errors@ =~= old(self).errors@ + arity_errors(
                    value_entries(value@, true),
                    2,
                    2,
                ) + scroll_list_errors(all.take(k + 1)));
                k = k + 1;
            }
        }
        proof {
            assert(all.take(k) =~= all);
        }
        out
    }

    /// Decodes a span into timed labels: groups of `beat, label`.
    #[verifier::loop_isolation(false)]
    pub fn parse_label_list(&mut self, value: &UnparsedPropertyValue) -> (r: Vec<
        StepmaniaTimedLabel,
    >)
        ensures
            labels_match(r@, label_list(kept_groups(value@, 2))),
            final (self).errors@ == old(self).errors@ + arity_errors(
                value_entries(value@, true),
                2,
                2,
            ) + label_list_errors(kept_groups(value@, 2)),
            final (self).latest_errors@ == old(self).latest_errors@,
            same_scan_fields(*final (self), *old(self)),
    {
        let mut groups = self.parse_value_group(value, 2, 2);
        let ghost all = kept_groups(value@, 2);
        proof {
            crate::values::lemma_arity_keep_min(value_entries(value@, true), 2);
        }
        let mut out: Vec<StepmaniaTimedLabel> = Vec::new();
        let ghost mut k: int = 0;
        proof {
            assert(label_list(all.take(0)) =~= Seq::<(i64, Seq<char>)>::empty());
            assert(crate::values::groups_view(groups@) =~= all.skip(0));
            assert(label_list_errors(all.take(0)) =~= Seq::<ParseError>::empty());
        }
        while groups.len() > 0
            invariant
                0 <= k <= all.len(),
                crate::values::groups_view(groups@) == all.skip(k),
                groups@.len() == all.len() - k,
                labels_match(out@, label_list(all.take(k))),
                self.errors@ == old(self).errors@ + arity_errors(value_entries(value@, true), 2, 2)
                    + label_list_errors(all.take(k)),
                self.latest_errors@ == old(self).latest_errors@,
                same_scan_fields(*self, *old(self)),
            decreases groups@.len(),
        {
            let ghost groups_pre = groups@;
            let g = groups.remove(0);
            proof {
                assert(crate::values::fields_view(g@) == crate::values::groups_view(
                    groups_pre,
                )[0]);
                assert(crate::values::groups_view(groups_pre)[0] == all[k]);
                assert(crate::values::groups_view(groups@) =~= crate::values::groups_view(
                    groups_pre,
                ).drop_first());
                assert(crate::values::groups_view(groups@) =~= all.skip(k + 1));
                assert(all.take(k + 1).drop_last() =~= all.take(k));
                assert(all.take(k + 1).last() == all[k]);
                assert(g@.len() == crate::values::fields_view(g@).len());
            }
            match self.parse_to_timed_label(g) {
                Some(x) => {
                    proof {
                        assert(label_list(all.take(k + 1)) =~= label_list(all.take(k)) + seq![
                            (x.beat, x.label@),
                        ]);
                    }
                    out.push(x);
                },
                None => {
                    proof {
                        assert(label_list(all.take(k + 1)) =~= label_list(all.take(k)));
                    }
                },
            }
            proof {
                k = k + 1;
            }
        }
        proof {
            assert(all.take(k) =~= all);
        }
        out
    }

    /// Decodes a span into visual changes: groups with at least a beat,
    /// followed by up to ten optional fields.
    #[verifier::loop_isolation(false)]
    pub fn parse_visual_list(&mut self, value: &UnparsedPropertyValue) -> (r: Vec<
        StepmaniaTimedVisualChange,
    >)
        ensures
            visuals_match(r@, kept_groups(value@, 1)),
            final (self).errors@ == old(self).errors@ + arity_errors(
                value_entries(value@, true),
                1,
                11,
            ) + visual_list_errors(kept_groups(value@, 1)),
            final (self).latest_errors@ == old(self).latest_errors@,
            same_scan_fields(*final (self), *old(self)),
    {
        let mut groups = self.parse_value_group(value, 1, 11);
        let ghost all = kept_groups(value@, 1);
        proof {
            crate::values::lemma_arity_keep_min(value_entries(value@, true), 1);
        }
        let mut out: Vec<StepmaniaTimedVisualChange> = Vec::new();
        let ghost mut k: int = 0;
        proof {
            assert(crate::values::groups_view(groups@) =~= all.skip(0));
            assert(visual_list_errors(all.take(0)) =~= Seq::<ParseError>::empty());
        }
        while groups.len() > 0
            invariant
                0 <= k <= all.len(),
                crate::values::groups_view(groups@) == all.skip(k),
                groups@.len() == all.len() - k,
                out@.len() == k,
                forall|l: int| 0 <= l < k ==> visual_matches(#[trigger] out@[l], all[l]),
                self.errors@ == old(self).errors@ + arity_errors(
                    value_entries(value@, true),
                    1,
                    11,
                ) + visual_list_errors(all.take(k)),
                self.latest_errors@ == old(self).latest_errors@,
                same_scan_fields(*self, *old(self)),
            decreases groups@.len(),
        {
            let ghost groups_pre = groups@;
            let g = groups.remove(0);
            proof {
                assert(crate::values::fields_view(g@) == crate::values::groups_view(
                    groups_pre,
                )[0]);
                assert(crate::values::groups_view(groups_pre)[0] == all[k]);
                assert(crate::values::groups_view(groups@) =~= crate::values::groups_view(
                    groups_pre,
                ).drop_first());
                assert(crate::values::groups_view(groups@) =~= all.skip(k + 1));
                assert(all.take(k + 1).drop_last() =~= all.take(k));
                assert(all.take(k + 1).last() == all[k]);
                assert(g@.len() == crate::values::fields_view(g@).len());
            }
            match self.parse_to_visual_change(g) {
                Some(x) => {
                    out.push(x);
                },
                None => {},
            }
            proof {
                assert(self.errors@ =~= old(self).errors@ + arity_errors(
                    value_entries(value@, true),
                    1,
                    11,
                ) + visual_list_errors(all.take(k + 1)));
                k = k + 1;
            }
        }
        proof {
            assert(all.take(k) =~= all);
        }
        out
    }

    /// Decodes a span into instrument tracks: groups of
    /// `instrument, file`, both trimmed.
    #[verifier::loop_isolation(false)]
    pub fn parse_instrument_list(&mut self, value: &UnparsedPropertyValue) -> (r: Vec<
        StepmaniaInstrumentTrack,
    >)
        ensures
            instruments_match(r@, kept_groups(value@, 2)),
            final (self).errors@ == old(self).errors@ + arity_errors(
                value_entries(value@, true),
                2,
                2,
            ),
            final (self).latest_errors@ == old(self).latest_errors@,
            same_scan_fields(*final (self), *old(self)),
    {
        let mut groups = self.parse_value_group(value, 2, 2);
        let ghost all = kept_groups(value@, 2);
        proof {
            crate::values::lemma_arity_keep_min(value_entries(value@, true), 2);
        }
        let mut out: Vec<StepmaniaInstrumentTrack> = Vec::new();
        let ghost mut k: int = 0;
        proof {
            assert(crate::values::groups_view(groups@) =~= all.skip(0));
        }
        while groups.len() > 0
            invariant
                0 <= k <= all.len(),
                crate::values::groups_view(groups@) == all.skip(k),
                groups@.len() == all.len() - k,
                out@.len() == k,
                forall|l: int|
                    0 <= l < k ==> (#[trigger] out@[l]).instrument@ == trim_seq(all[l][0].text)
                        && out@[l].file@ == trim_seq(all[l][1].text),
                self.errors@ == old(self).errors@ + arity_errors(
                    value_entries(value@, true),
                    2,
                    2,
                ),
                self.latest_errors@ == old(self).latest_errors@,
                same_scan_fields(*self, *old(self)),
            decreases groups@.len(),
        {
            let ghost groups_pre = groups@;
            let g = groups.remove(0);
            proof {
                assert(crate::values::fields_view(g@) == crate::values::groups_view(
                    groups_pre,
                )[0]);
                assert(crate::values::groups_view(groups_pre)[0] == all[k]);
                assert(crate::values::groups_view(groups@) =~= crate::values::groups_view(
                    groups_pre,
                ).drop_first());
                assert(crate::values::groups_view(groups@) =~= all.skip(k + 1));
                assert(g@.len() == crate::values::fields_view(g@).len());
            }
            match self.parse_to_instrument_track(g) {
                Some(x) => {
                    out.push(x);
                },
                None => {},
            }
            proof {
                k = k + 1;
            }
        }
        proof {
            assert(forall|l: int| 0 <= l < k ==> all.take(k)[l] == all[l]);
        }
        out
    }
}

} // verus!
