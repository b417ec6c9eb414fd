//! Markdown ready to render: an event sequence with its rendering options.
use vstd::prelude::*;

use crate::event::{Config, Event, MalformedEventSequence};
use crate::render::{render_events, rendered};

verus! {

/// A markdown document as events, to be rendered into an HTML buffer.
pub struct Markdown {
    events: Vec<Event>,
    config: Config,
}

impl Markdown {
    pub closed spec fn spec_events(&self) -> Seq<Event> {
        self.events@
    }

    pub closed spec fn spec_config(&self) -> Config {
        self.config
    }

    /// Renders the given events (useful for adjusting a parser's output first),
    /// without header ids.
    pub fn from_events(events: Vec<Event>) -> (m: Markdown)
        ensures
            m.spec_events() == events@,
            !m.spec_config().header_ids,
    {
        Markdown { events: events, config: Config { header_ids: false } }
    }

    /// Gives every header an id: its text lower-cased, with whitespace and
    /// non-ASCII characters replaced by `-`.
    pub fn with_header_ids(self) -> (m: Markdown)
        ensures
            m.spec_events() == self.spec_events(),
            m.spec_config().header_ids,
    {
        Markdown { events: self.events, config: Config { header_ids: true } }
    }

    /// Appends the HTML to `w`.
    pub fn render_once(self, w: &mut String) -> (r: Result<(), MalformedEventSequence>)
        ensures
            match rendered(self.spec_config(), self.spec_events()) {
                Some(out) => r is Ok && final(w)@ == old(w)@ + out,
                None => r is Err,
            },
    {
        render_events(self.config, self.events, w)
    }
}

} // verus!
