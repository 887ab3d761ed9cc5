//! The preprocessor's settings, as read from `[preprocessor.timeline]`.
use vstd::prelude::*;
use crate::entry::opt_view;
use crate::text::{from_chars, str_eq, to_chars, trim, trimmed};

verus! {

/// The value of the settings.
pub struct ConfigModel {
    /// The marker words whose `{{word}}…{{/word}}` blocks are timelines, in the
    /// order they are replaced.
    pub markers: Seq<Seq<char>>,
    /// Whether duration labels go between neighbouring entries.
    pub duration_gaps: bool,
    /// Text put before each timeline, on a line of its own.
    pub before: Option<Seq<char>>,
    /// Text put after each timeline, on a line of its own.
    pub after: Option<Seq<char>>,
}

/// The preprocessor's settings.
pub struct TimelineConfig {
    markers: Vec<String>,
    duration_gaps: bool,
    before: Option<String>,
    after: Option<String>,
}

/// The markers for a `timeline-marker` setting: `timeline` always, then the
/// setting trimmed when it is neither empty nor `timeline`.
pub open spec fn marker_list(custom: Option<Seq<char>>) -> Seq<Seq<char>> {
    match custom {
        Some(c) => if trim(c).len() > 0 && trim(c) != "timeline"@ {
            seq!["timeline"@, trim(c)]
        } else {
            seq!["timeline"@]
        },
        None => seq!["timeline"@],
    }
}

impl View for TimelineConfig {
    type V = ConfigModel;

    closed spec fn view(&self) -> ConfigModel {
        ConfigModel {
            markers: self.markers@.map_values(|m: String| m@),
            duration_gaps: self.duration_gaps,
            before: opt_view(self.before),
            after: opt_view(self.after),
        }
    }
}

impl TimelineConfig {
    #[verifier::type_invariant]
    closed spec fn one_or_two_markers(self) -> bool {
        1 <= self.markers@.len() <= 2
    }

    /// The settings for the values found under `[preprocessor.timeline]`:
    /// `timeline-marker`, `duration-gaps` (on when absent), `before` and `after`.
    pub fn from_settings(
        marker: Option<String>,
        duration_gaps: Option<bool>,
        before: Option<String>,
        after: Option<String>,
    ) -> (r: Self)
        ensures
            r@ == (ConfigModel {
                markers: marker_list(opt_view(marker)),
                duration_gaps: match duration_gaps {
                    Some(b) => b,
                    None => true,
                },
                before: opt_view(before),
                after: opt_view(after),
            }),
    {
        let default_marker = from_chars(to_chars("timeline").as_slice());
        let mut markers: Vec<String> = Vec::new();
        markers.push(default_marker);
        match marker {
            Some(c) => {
                let tv = trimmed(to_chars(c.as_str()).as_slice());
                let t = from_chars(tv.as_slice());
                if tv.len() > 0 && !str_eq(t.as_str(), "timeline") {
                    markers.push(t);
                }
            },
            None => {},
        }
        let gaps = match duration_gaps {
            Some(b) => b,
            None => true,
        };
        let r = TimelineConfig { markers, duration_gaps: gaps, before, after };
        assert(r@.markers =~= marker_list(opt_view(marker)));
        r
    }

    /// The marker words, in order.
    pub fn markers(&self) -> (r: &Vec<String>)
        ensures
            r@.map_values(|m: String| m@) == self@.markers,
            1 <= r@.len() <= 2,
    {
        proof {
            use_type_invariant(self);
        }
        &self.markers
    }

    /// Whether duration labels go between neighbouring entries.
    pub fn duration_gaps(&self) -> (r: bool)
        ensures
            r == self@.duration_gaps,
    {
        self.duration_gaps
    }

    /// Text put before each timeline.
    pub fn before(&self) -> (r: &Option<String>)
        ensures
            opt_view(*r) == self@.before,
    {
        &self.before
    }

    /// Text put after each timeline.
    pub fn after(&self) -> (r: &Option<String>)
        ensures
            opt_view(*r) == self@.after,
    {
        &self.after
    }
}

} // verus!
