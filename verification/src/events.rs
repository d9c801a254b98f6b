//! The events that subscribers hear.
use vstd::prelude::*;

verus! {

/// An event. Whatever moves persisted state announces it; a reader announces nothing.
#[derive(Debug, Eq)]
pub enum ModuleEvent {
    /// The rows served for this chain have changed.
    TokensUpdated(i64),
    /// The stored configuration record moved; the word is that of its new source.
    ConfigChanged(String),
}

/// What a [`ModuleEvent`] says.
pub enum EventView {
    TokensUpdated(i64),
    ConfigChanged(Seq<char>),
}

impl View for ModuleEvent {
    type V = EventView;

    open spec fn view(&self) -> EventView {
        match self {
            ModuleEvent::TokensUpdated(c) => EventView::TokensUpdated(*c),
            ModuleEvent::ConfigChanged(s) => EventView::ConfigChanged(s@),
        }
    }
}

impl PartialEq for ModuleEvent {
    fn eq(&self, other: &Self) -> (r: bool) {
        match (self, other) {
            (ModuleEvent::TokensUpdated(a), ModuleEvent::TokensUpdated(b)) => *a == *b,
            (ModuleEvent::ConfigChanged(a), ModuleEvent::ConfigChanged(b)) => *a == *b,
            _ => false,
        }
    }
}

impl vstd::std_specs::cmp::PartialEqSpecImpl for ModuleEvent {
    open spec fn obeys_eq_spec() -> bool {
        true
    }

    open spec fn eq_spec(&self, other: &Self) -> bool {
        self@ == other@
    }
}

/// What a sequence of events says, one by one.
pub open spec fn event_views(events: Seq<ModuleEvent>) -> Seq<EventView> {
    events.map_values(|e: ModuleEvent| e@)
}

/// Where events go.
pub trait TokenListModuleEvents {
    /// Everything announced so far, in order.
    spec fn announced(&self) -> Seq<EventView>;

    /// The rows served for a chain have changed. Emitted once for each chain that moved.
    fn tokens_updated(&mut self, chain_id: i64)
        ensures
            final(self).announced() == old(self).announced().push(
                EventView::TokensUpdated(chain_id),
            ),
    ;

    /// The stored configuration record moved. It is an event of its own because most edits of the
    /// configuration move no row at all.
    fn config_changed(&mut self, source: String)
        ensures
            final(self).announced() == old(self).announced().push(
                EventView::ConfigChanged(source@),
            ),
    ;
}

/// Events in the order in which they were announced, to be passed on once the list is released.
#[derive(Debug)]
pub struct EventLog {
    pub events: Vec<ModuleEvent>,
}

impl EventLog {
    /// A log in which nothing has been announced.
    pub fn new() -> (r: Self)
        ensures
            r.announced() == Seq::<EventView>::empty(),
    {
        let r = EventLog { events: Vec::new() };
        assert(r.announced() =~= Seq::empty());
        r
    }
}

impl TokenListModuleEvents for EventLog {
    open spec fn announced(&self) -> Seq<EventView> {
        event_views(self.events@)
    }

    fn tokens_updated(&mut self, chain_id: i64) {
        self.events.push(ModuleEvent::TokensUpdated(chain_id));
        assert(self.announced() =~= old(self).announced().push(EventView::TokensUpdated(chain_id)));
    }

    fn config_changed(&mut self, source: String) {
        self.events.push(ModuleEvent::ConfigChanged(source));
        assert(self.announced() =~= old(self).announced().push(EventView::ConfigChanged(source@)));
    }
}

} // verus!
