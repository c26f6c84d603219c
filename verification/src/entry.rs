//! A journal entry kept as a list of events.  The state a reader sees is what
//! the events give when applied in order to an empty entry; every change to
//! an entry is recorded as an event, and an entry is rebuilt from its events.
use vstd::prelude::*;
use crate::annotations::{
    people_pattern, projects_pattern, regex_group1, strings_view, tags_pattern, AnnotationParser,
};
use crate::text::{append_str, join_strings, join_with};
use crate::time::{
    compact_date_text, format_compact_date, format_timestamp, local_now, timestamp_text,
    timestamp_valid, Timestamp,
};

verus! {

/// Something that happened to an entry.
#[derive(Clone, Debug)]
pub enum EntryEvent {
    /// The entry was created with its id (`YYYYMMDD`) and first text.
    Created { id: String, content: String, timestamp: Timestamp },
    /// The text was replaced.
    ContentUpdated { content: String, timestamp: Timestamp },
    /// The annotations of the text were read.
    AnnotationParsed {
        tags: Vec<String>,
        people: Vec<String>,
        projects: Vec<String>,
        timestamp: Timestamp,
    },
}

/// An event with its texts as sequences of characters.
pub enum EventView {
    Created { id: Seq<char>, content: Seq<char>, timestamp: Timestamp },
    ContentUpdated { content: Seq<char>, timestamp: Timestamp },
    AnnotationParsed {
        tags: Seq<Seq<char>>,
        people: Seq<Seq<char>>,
        projects: Seq<Seq<char>>,
        timestamp: Timestamp,
    },
}

impl View for EntryEvent {
    type V = EventView;

    open spec fn view(&self) -> EventView {
        match self {
            EntryEvent::Created { id, content, timestamp } => EventView::Created {
                id: id@,
                content: content@,
                timestamp: *timestamp,
            },
            EntryEvent::ContentUpdated { content, timestamp } => EventView::ContentUpdated {
                content: content@,
                timestamp: *timestamp,
            },
            EntryEvent::AnnotationParsed { tags, people, projects, timestamp } =>
                EventView::AnnotationParsed {
                tags: strings_view(tags@),
                people: strings_view(people@),
                projects: strings_view(projects@),
                timestamp: *timestamp,
            },
        }
    }
}

/// The time at which an event happened.
pub open spec fn event_time(e: EventView) -> Timestamp {
    match e {
        EventView::Created { timestamp, .. } => timestamp,
        EventView::ContentUpdated { timestamp, .. } => timestamp,
        EventView::AnnotationParsed { timestamp, .. } => timestamp,
    }
}

/// The views of a list of events.
pub open spec fn events_view(evs: Seq<EntryEvent>) -> Seq<EventView> {
    evs.map_values(|e: EntryEvent| e@)
}

/// Every event happened at a time that `chrono` can hold.
pub open spec fn events_valid(evs: Seq<EventView>) -> bool {
    forall|i: int| 0 <= i < evs.len() ==> timestamp_valid(event_time(#[trigger] evs[i]))
}

/// What a reader sees of an entry.
#[derive(Clone, Debug)]
pub struct EntryState {
    pub id: String,
    pub created_at: Timestamp,
    pub updated_at: Timestamp,
    pub content: String,
    pub tags: Vec<String>,
    pub people: Vec<String>,
    pub projects: Vec<String>,
}

/// The state with its texts as sequences of characters.
pub struct StateView {
    pub id: Seq<char>,
    pub created_at: Timestamp,
    pub updated_at: Timestamp,
    pub content: Seq<char>,
    pub tags: Seq<Seq<char>>,
    pub people: Seq<Seq<char>>,
    pub projects: Seq<Seq<char>>,
}

impl View for EntryState {
    type V = StateView;

    open spec fn view(&self) -> StateView {
        StateView {
            id: self.id@,
            created_at: self.created_at,
            updated_at: self.updated_at,
            content: self.content@,
            tags: strings_view(self.tags@),
            people: strings_view(self.people@),
            projects: strings_view(self.projects@),
        }
    }
}

/// An empty entry made at `now`.
pub open spec fn empty_state(now: Timestamp) -> StateView {
    StateView {
        id: Seq::empty(),
        created_at: now,
        updated_at: now,
        content: Seq::empty(),
        tags: Seq::empty(),
        people: Seq::empty(),
        projects: Seq::empty(),
    }
}

/// What one event does to the state.
pub open spec fn apply(s: StateView, e: EventView) -> StateView {
    match e {
        EventView::Created { id, content, timestamp } => StateView {
            id,
            content,
            created_at: timestamp,
            updated_at: timestamp,
            ..s
        },
        EventView::ContentUpdated { content, timestamp } => StateView {
            content,
            updated_at: timestamp,
            ..s
        },
        EventView::AnnotationParsed { tags, people, projects, timestamp } => StateView {
            tags,
            people,
            projects,
            updated_at: timestamp,
            ..s
        },
    }
}

/// The state that the events `evs`, applied in order, give from `base`.
pub open spec fn replay(base: StateView, evs: Seq<EventView>) -> StateView
    decreases evs.len(),
{
    if evs.len() == 0 {
        base
    } else {
        apply(replay(base, evs.drop_last()), evs.last())
    }
}

/// The annotations event for `content` at `t`: what the three patterns find.
pub open spec fn annotations_of(content: Seq<char>, t: Timestamp) -> EventView {
    EventView::AnnotationParsed {
        tags: regex_group1(tags_pattern(), content),
        people: regex_group1(people_pattern(), content),
        projects: regex_group1(projects_pattern(), content),
        timestamp: t,
    }
}

/// The creation event of an entry with `content` made at `t`: its id is the date of
/// `t` written `YYYYMMDD`.
pub open spec fn creation_of(content: Seq<char>, t: Timestamp) -> EventView {
    EventView::Created {
        id: compact_date_text(t.year as int, t.month as int, t.day as int),
        content,
        timestamp: t,
    }
}

/// The creation event of an entry with id `id` and `content` made at `t`.
pub open spec fn created_with(id: Seq<char>, content: Seq<char>, t: Timestamp) -> EventView {
    EventView::Created { id, content, timestamp: t }
}

/// The event that replaces the text with `content` at `t`.
pub open spec fn update_of(content: Seq<char>, t: Timestamp) -> EventView {
    EventView::ContentUpdated { content, timestamp: t }
}

/// An entry: its events and the state they give.
pub struct Entry {
    events: Vec<EntryEvent>,
    state: EntryState,
    annotation_parser: AnnotationParser,
    start: Ghost<Timestamp>,
}

/// The events of an entry and the state that a reader sees.
pub struct EntryView {
    pub events: Seq<EventView>,
    pub state: StateView,
}

impl View for Entry {
    type V = EntryView;

    closed spec fn view(&self) -> EntryView {
        EntryView { events: events_view(self.events@), state: self.state@ }
    }
}

/// Copies a list of strings.
fn clone_strings(v: &Vec<String>) -> (r: Vec<String>)
    ensures
        r@ == v@,
{
    let mut r: Vec<String> = Vec::new();
    let n = v.len();
    let mut i: usize = 0;
    while i < n
        invariant
            n == v@.len(),
            i <= n,
            r@ == v@.take(i as int),
        decreases n - i,
    {
        r.push(v[i].clone());
        proof {
            assert(v@.take(i + 1) =~= v@.take(i as int).push(v@[i as int]));
        }
        i = i + 1;
    }
    proof {
        assert(v@.take(n as int) =~= v@);
    }
    r
}

impl EntryState {
    /// An empty entry made now.
    pub fn default() -> (s: EntryState)
        ensures
            timestamp_valid(s.created_at),
            s@ == empty_state(s.created_at),
    {
        let now = local_now();
        let s = EntryState {
            id: String::new(),
            created_at: now,
            updated_at: now,
            content: String::new(),
            tags: Vec::new(),
            people: Vec::new(),
            projects: Vec::new(),
        };
        proof {
            assert(strings_view(s.tags@) =~= Seq::<Seq<char>>::empty());
            assert(strings_view(s.people@) =~= Seq::<Seq<char>>::empty());
            assert(strings_view(s.projects@) =~= Seq::<Seq<char>>::empty());
        }
        s
    }
}

impl Entry {
    /// The time of the empty state that the events are applied to.
    pub closed spec fn start(&self) -> Timestamp {
        self.start@
    }

    /// The state is the replay of the events from the empty state; all times are
    /// ones that `chrono` can hold; the annotation parser has its patterns.
    pub closed spec fn wf(&self) -> bool {
        &&& self.state@ == replay(empty_state(self.start@), events_view(self.events@))
        &&& timestamp_valid(self.start@)
        &&& events_valid(events_view(self.events@))
        &&& self.annotation_parser.wf()
    }

    /// An entry's state is its events replayed over the empty state of its start.
    pub proof fn lemma_wf_replay(&self)
        requires
            self.wf(),
        ensures
            self@.state == replay(empty_state(self.start()), self@.events),
            timestamp_valid(self.start()),
            events_valid(self@.events),
    {
    }

    /// Applies an event to the state and records it.
    fn apply_event(&mut self, event: EntryEvent)
        ensures
            final(self).state@ == apply(old(self).state@, event@),
            final(self).events@ == old(self).events@.push(event),
            final(self).annotation_parser == old(self).annotation_parser,
            final(self).start == old(self).start,
    {
        match &event {
            EntryEvent::Created { id, content, timestamp } => {
                self.state.id = id.clone();
                self.state.content = content.clone();
                self.state.created_at = *timestamp;
                self.state.updated_at = *timestamp;
            },
            EntryEvent::ContentUpdated { content, timestamp } => {
                self.state.content = content.clone();
                self.state.updated_at = *timestamp;
            },
            EntryEvent::AnnotationParsed { tags, people, projects, timestamp } => {
                self.state.tags = clone_strings(tags);
                self.state.people = clone_strings(people);
                self.state.projects = clone_strings(projects);
                self.state.updated_at = *timestamp;
            },
        }
        self.events.push(event);
    }

    /// Applies an event and keeps the state the replay of the events.
    fn record(&mut self, event: EntryEvent)
        requires
            old(self).wf(),
            timestamp_valid(event_time(event@)),
        ensures
            final(self).wf(),
            final(self)@.events == old(self)@.events.push(event@),
            final(self).start() == old(self).start(),
    {
        let ghost old_events = self.events@;
        self.apply_event(event);
        proof {
            let evs = events_view(self.events@);
            assert(evs.drop_last() =~= events_view(old_events));
            assert(evs =~= events_view(old_events).push(event@));
            assert forall|i: int| 0 <= i < evs.len() implies timestamp_valid(
                event_time(#[trigger] evs[i]),
            ) by {
                if i < evs.len() - 1 {
                    assert(evs[i] == events_view(old_events)[i]);
                }
            }
        }
    }

    /// Reads the annotations of the text and records them as an event.
    fn parse_annotations(&mut self)
        requires
            old(self).wf(),
        ensures
            final(self).wf(),
            final(self).start() == old(self).start(),
            exists|t: Timestamp|
                timestamp_valid(t) && final(self)@.events == old(self)@.events.push(
                    #[trigger] annotations_of(old(self)@.state.content, t),
                ),
    {
        let annotations = self.annotation_parser.parse(self.state.content.as_str());
        let now = local_now();
        let event = EntryEvent::AnnotationParsed {
            tags: annotations.tags,
            people: annotations.people,
            projects: annotations.projects,
            timestamp: now,
        };
        proof {
            assert(event@ == annotations_of(old(self)@.state.content, now));
        }
        self.record(event);
    }

    /// A new entry with `content`, created now: its id is today's date `YYYYMMDD`,
    /// and its annotations are read at once.
    pub fn new(content: String) -> (e: Entry)
        ensures
            e.wf(),
            e@.events.len() == 2,
            exists|t: Timestamp|
                timestamp_valid(t) && e@.events[0] == #[trigger] creation_of(content@, t),
            exists|t: Timestamp|
                timestamp_valid(t) && e@.events[1] == #[trigger] annotations_of(content@, t),
    {
        let now = local_now();
        let id = format_compact_date(now.year, now.month, now.day);
        let state = EntryState::default();
        let mut entry = Entry {
            events: Vec::new(),
            state,
            annotation_parser: AnnotationParser::new(),
            start: Ghost(state.created_at),
        };
        proof {
            assert(events_view(entry.events@) =~= Seq::<EventView>::empty());
        }
        let ghost c = content@;
        let event = EntryEvent::Created { id, content, timestamp: now };
        entry.record(event);
        proof {
            assert(entry@.events[0] == creation_of(c, now));
            assert(entry@.state.content == c);
        }
        entry.parse_annotations();
        entry
    }

    /// A new entry with `content` and the given id, created now, its annotations read
    /// at once.
    pub fn with_id(content: String, id: String) -> (e: Entry)
        ensures
            e.wf(),
            e@.events.len() == 2,
            exists|t: Timestamp|
                timestamp_valid(t) && e@.events[0] == #[trigger] created_with(id@, content@, t),
            exists|t: Timestamp|
                timestamp_valid(t) && e@.events[1] == #[trigger] annotations_of(content@, t),
    {
        let now = local_now();
        let state = EntryState::default();
        let mut entry = Entry {
            events: Vec::new(),
            state,
            annotation_parser: AnnotationParser::new(),
            start: Ghost(state.created_at),
        };
        proof {
            assert(events_view(entry.events@) =~= Seq::<EventView>::empty());
        }
        let ghost c = content@;
        let ghost i = id@;
        let event = EntryEvent::Created { id, content, timestamp: now };
        entry.record(event);
        proof {
            assert(entry@.events[0] == created_with(i, c, now));
            assert(entry@.state.content == c);
        }
        entry.parse_annotations();
        entry
    }

    /// Replaces the text and reads its annotations again.
    pub fn update_content(&mut self, new_content: String)
        requires
            old(self).wf(),
        ensures
            final(self).wf(),
            final(self).start() == old(self).start(),
            final(self)@.events.len() == old(self)@.events.len() + 2,
            final(self)@.events.take(old(self)@.events.len() as int) == old(self)@.events,
            exists|t: Timestamp|
                timestamp_valid(t) && final(self)@.events[old(self)@.events.len() as int]
                    == #[trigger] update_of(new_content@, t),
            exists|t: Timestamp|
                timestamp_valid(t) && final(self)@.events[old(self)@.events.len() as int + 1]
                    == #[trigger] annotations_of(new_content@, t),
    {
        let ghost c = new_content@;
        let ghost evs0 = self@.events;
        let now = local_now();
        let event = EntryEvent::ContentUpdated { content: new_content, timestamp: now };
        self.record(event);
        let ghost evs1 = self@.events;
        proof {
            assert(self@.state.content == c);
        }
        self.parse_annotations();
        proof {
            assert(self@.events.take(evs0.len() as int) =~= evs0);
            assert(self@.events[evs0.len() as int] == evs1[evs0.len() as int]);
            assert(evs1[evs0.len() as int] == update_of(c, now));
        }
    }

    /// The state that a reader sees.
    pub fn current_state(&self) -> (s: &EntryState)
        ensures
            s@ == self@.state,
    {
        &self.state
    }

    /// All events, oldest first.
    pub fn events(&self) -> (evs: &[EntryEvent])
        ensures
            events_view(evs@) == self@.events,
    {
        self.events.as_slice()
    }

    /// Rebuilds an entry from its events: none from no events, otherwise the events
    /// applied in order to an empty entry made now.
    pub fn from_events(events: Vec<EntryEvent>) -> (r: Option<Entry>)
        requires
            events_valid(events_view(events@)),
        ensures
            r is None <==> events@.len() == 0,
            r matches Some(e) ==> e.wf() && e@.events == events_view(events@),
    {
        if events.len() == 0 {
            return None;
        }
        let state = EntryState::default();
        let mut entry = Entry {
            events: Vec::new(),
            state,
            annotation_parser: AnnotationParser::new(),
            start: Ghost(state.created_at),
        };
        let ghost all = events_view(events@);
        let mut rest = events;
        let n = rest.len();
        let mut i: usize = 0;
        proof {
            assert(events_view(entry.events@) =~= all.take(0));
            assert(rest@ =~= events@.skip(0));
        }
        while i < n
            invariant
                n == events@.len(),
                all == events_view(events@),
                events_valid(all),
                i <= n,
                rest@ == events@.skip(i as int),
                entry.wf(),
                events_view(entry.events@) == all.take(i as int),
            decreases n - i,
        {
            let event = rest.remove(0);
            proof {
                assert(event == events@[i as int]);
                assert(rest@ =~= events@.skip(i + 1));
                assert(all[i as int] == event@);
            }
            entry.record(event);
            proof {
                assert(all.take(i + 1) =~= all.take(i as int).push(all[i as int]));
            }
            i = i + 1;
        }
        proof {
            assert(all.take(n as int) =~= all);
        }
        Some(entry)
    }

    /// The entry as a Markdown file with a front matter of its id, times and
    /// annotations, then its text.
    pub fn to_markdown(&self) -> (md: String)
        requires
            self.wf(),
        ensures
            md@ == markdown_text(self@.state),
    {
        proof {
            lemma_replay_times_valid(empty_state(self.start@), events_view(self.events@));
        }
        let st = &self.state;
        let created = format_timestamp(st.created_at);
        let updated = format_timestamp(st.updated_at);
        let tags = join_strings(&st.tags, ", ");
        let people = join_strings(&st.people, ", ");
        let projects = join_strings(&st.projects, ", ");
        proof {
            reveal_strlit(", ");
            assert(", "@ =~= seq![',', ' ']);
            assert(st.tags@.map_values(|x: String| x@) =~= strings_view(st.tags@));
            assert(st.people@.map_values(|x: String| x@) =~= strings_view(st.people@));
            assert(st.projects@.map_values(|x: String| x@) =~= strings_view(st.projects@));
            assert(tags@ == list_text(self@.state.tags));
            assert(people@ == list_text(self@.state.people));
            assert(projects@ == list_text(self@.state.projects));
        }
        let mut md = String::from_str("---\nid: ");
        append_str(&mut md, st.id.as_str());
        append_str(&mut md, "\ncreated_at: ");
        append_str(&mut md, created.as_str());
        append_str(&mut md, "\nupdated_at: ");
        append_str(&mut md, updated.as_str());
        append_str(&mut md, "\ntags: [");
        append_str(&mut md, tags.as_str());
        append_str(&mut md, "]\npeople: [");
        append_str(&mut md, people.as_str());
        append_str(&mut md, "]\nprojects: [");
        append_str(&mut md, projects.as_str());
        append_str(&mut md, "]\n---\n\n");
        append_str(&mut md, st.content.as_str());
        append_str(&mut md, "\n");
        proof {
            reveal_strlit("---\nid: ");
            reveal_strlit("\ncreated_at: ");
            reveal_strlit("\nupdated_at: ");
            reveal_strlit("\ntags: [");
            reveal_strlit("]\npeople: [");
            reveal_strlit("]\nprojects: [");
            reveal_strlit("]\n---\n\n");
            reveal_strlit("\n");
            assert(md@ =~= markdown_text(self@.state));
        }
        md
    }
}

/// The annotations of a list, joined with `", "`.
pub open spec fn list_text(ps: Seq<Seq<char>>) -> Seq<char> {
    join_with(ps, seq![',', ' '])
}

/// The Markdown file of a state: a front matter between `---` lines, a blank line,
/// and the text followed by a line break.
pub open spec fn markdown_text(s: StateView) -> Seq<char> {
    "---\nid: "@ + s.id + "\ncreated_at: "@ + timestamp_text(s.created_at) + "\nupdated_at: "@
        + timestamp_text(s.updated_at) + "\ntags: ["@ + list_text(s.tags) + "]\npeople: ["@
        + list_text(s.people) + "]\nprojects: ["@ + list_text(s.projects) + "]\n---\n\n"@
        + s.content + "\n"@
}

/// A replay of events with valid times from a state with valid times has valid times.
pub proof fn lemma_replay_times_valid(base: StateView, evs: Seq<EventView>)
    requires
        timestamp_valid(base.created_at),
        timestamp_valid(base.updated_at),
        events_valid(evs),
    ensures
        timestamp_valid(replay(base, evs).created_at),
        timestamp_valid(replay(base, evs).updated_at),
    decreases evs.len(),
{
    if evs.len() > 0 {
        assert(events_valid(evs.drop_last())) by {
            assert forall|i: int| 0 <= i < evs.drop_last().len() implies timestamp_valid(
                event_time(#[trigger] evs.drop_last()[i]),
            ) by {
                assert(evs.drop_last()[i] == evs[i]);
            }
        }
        lemma_replay_times_valid(base, evs.drop_last());
        assert(timestamp_valid(event_time(evs[evs.len() - 1])));
    }
}

/// Events that begin with a creation give the same state from any empty entry,
/// whenever it was made.
pub proof fn lemma_replay_after_created(t1: Timestamp, t2: Timestamp, evs: Seq<EventView>)
    requires
        evs.len() > 0,
        evs[0] is Created,
    ensures
        replay(empty_state(t1), evs) == replay(empty_state(t2), evs),
    decreases evs.len(),
{
    if evs.len() == 1 {
        assert(evs.drop_last() =~= Seq::<EventView>::empty());
        assert(evs.last() == evs[0]);
        assert(replay(empty_state(t1), evs.drop_last()) == empty_state(t1));
        assert(replay(empty_state(t2), evs.drop_last()) == empty_state(t2));
        assert(replay(empty_state(t1), evs) == apply(empty_state(t1), evs[0]));
        assert(replay(empty_state(t2), evs) == apply(empty_state(t2), evs[0]));
        match evs[0] {
            EventView::Created { id, content, timestamp } => {
                assert(apply(empty_state(t1), evs[0]) == apply(empty_state(t2), evs[0]));
            },
            _ => {},
        }
    } else {
        assert(evs.drop_last()[0] == evs[0]);
        lemma_replay_after_created(t1, t2, evs.drop_last());
    }
}

/// Rebuilding an entry from the events of an entry that began with its creation
/// gives the same state: the state is determined by the events.
pub proof fn law_rebuild_gives_same_state(e: Entry, rebuilt: Entry)
    requires
        e.wf(),
        rebuilt.wf(),
        rebuilt@.events == e@.events,
        e@.events.len() > 0,
        e@.events[0] is Created,
    ensures
        rebuilt@.state == e@.state,
{
    lemma_replay_after_created(e.start(), rebuilt.start(), e@.events);
}

} // verus!
