use vstd::prelude::*;
use vstd::string::StringSliceAdditionalSpecFns;
use vstd::utf8::encode_utf8;
use crate::codec::{
    append_stripped, base64_standard, decode_standard, is_slug, slug_of, slugify, stripped,
};
use crate::state::{fresh, CurrentTag, State, StateModel};

verus! {

/// One parse event of the document, as the tokenizer reports it.
#[derive(Debug)]
pub enum Event {
    ElementStart(String),
    ElementEnd(String),
    Characters(String),
    /// CDATA, comments and anything else: no effect.
    Other,
}

/// Mathematical model of an `Event`.
pub enum EventModel {
    Start(Seq<char>),
    End(Seq<char>),
    Text(Seq<char>),
    Other,
}

impl View for Event {
    type V = EventModel;

    open spec fn view(&self) -> EventModel {
        match self {
            Event::ElementStart(n) => EventModel::Start(n@),
            Event::ElementEnd(n) => EventModel::End(n@),
            Event::Characters(t) => EventModel::Text(t@),
            Event::Other => EventModel::Other,
        }
    }
}

/// What the driver of the reduction is to do after one event. Paths are
/// relative to the output root `data`.
#[derive(Debug)]
pub enum Action {
    Nothing,
    /// Make sure that the directory `data/<slug>` exists.
    CreateDir(String),
    /// Write `bytes` to `data/<dir>/<name>`, replacing the file.
    WriteFile { dir: String, name: String, bytes: Vec<u8> },
}

/// Mathematical model of an `Action`.
pub enum Effect {
    Nothing,
    CreateDir(Seq<char>),
    WriteFile(Seq<char>, Seq<char>, Seq<u8>),
}

impl View for Action {
    type V = Effect;

    open spec fn view(&self) -> Effect {
        match self {
            Action::Nothing => Effect::Nothing,
            Action::CreateDir(d) => Effect::CreateDir(d@),
            Action::WriteFile { dir, name, bytes } => Effect::WriteFile(dir@, name@, bytes@),
        }
    }
}

/// Why a resource could not be written.
#[derive(Debug, Clone, Copy, PartialEq, Eq, Structural)]
pub enum ExportError {
    /// A resource closed before its note's title was seen.
    MissingTitle,
    /// The resource's payload is not valid base64.
    InvalidPayload,
    /// The document is not well-formed markup.
    Malformed,
    /// The document holds a run of 256 or more `]`, more than the tokenizer
    /// can count inside a CDATA section.
    BracketRunTooLong,
    /// The document has `LONGEST_DOCUMENT` bytes or more, more than the
    /// tokenizer can count its lines and columns to.
    DocumentTooLong,
}

/// The context that opening an element of this name enters, if any.
pub open spec fn tag_named(name: Seq<char>) -> Option<CurrentTag> {
    if name == "title"@ {
        Some(CurrentTag::Title)
    } else if name == "data"@ {
        Some(CurrentTag::ResourceData)
    } else if name == "content"@ {
        Some(CurrentTag::Content)
    } else if name == "resource"@ {
        Some(CurrentTag::Resource)
    } else if name == "resource-attributes"@ {
        Some(CurrentTag::ResourceAttributes)
    } else if name == "file-name"@ {
        Some(CurrentTag::ResourceAttributesFilename)
    } else {
        None
    }
}

/// The state after an element of this name opens: a `note` starts afresh.
pub open spec fn after_open(s: StateModel, name: Seq<char>) -> StateModel {
    if name == "note"@ {
        fresh()
    } else {
        match tag_named(name) {
            Some(t) => StateModel { tag: Some(t), ..s },
            None => s,
        }
    }
}

/// Name of the file that a resource is written to.
pub open spec fn resource_file(s: StateModel) -> Seq<char> {
    match s.filename {
        Some(f) => f,
        None => "content"@,
    }
}

/// The write that closing a resource asks for, or why there is none.
pub open spec fn dump(s: StateModel) -> Result<Effect, ExportError> {
    match s.title {
        None => Err(ExportError::MissingTitle),
        Some(t) => match base64_standard(s.data) {
            None => Err(ExportError::InvalidPayload),
            Some(b) => Ok(Effect::WriteFile(t, resource_file(s), b)),
        },
    }
}

/// The state after an element of this name closes, and the write that
/// closing a resource asks for.
pub open spec fn after_close(s: StateModel, name: Seq<char>) -> Result<
    (StateModel, Effect),
    ExportError,
> {
    if name == "resource"@ {
        match dump(s) {
            Ok(e) => Ok((StateModel { tag: None, data: Seq::empty(), ..s }, e)),
            Err(x) => Err(x),
        }
    } else {
        Ok((StateModel { tag: None, ..s }, Effect::Nothing))
    }
}

/// The state after a run of text, read by the current context, and the
/// directory that a title's text asks for.
pub open spec fn after_text(s: StateModel, text: Seq<char>) -> (StateModel, Effect) {
    match s.tag {
        Some(CurrentTag::Title) => (
            StateModel { title: Some(slug_of(text)), ..s },
            Effect::CreateDir(slug_of(text)),
        ),
        Some(CurrentTag::ResourceData) => (
            StateModel { data: s.data + stripped(encode_utf8(text)), ..s },
            Effect::Nothing,
        ),
        Some(CurrentTag::ResourceAttributesFilename) => (
            StateModel { filename: Some(text), ..s },
            Effect::Nothing,
        ),
        _ => (s, Effect::Nothing),
    }
}

/// One step of the reduction.
pub open spec fn step(s: StateModel, e: EventModel) -> Result<(StateModel, Effect), ExportError> {
    match e {
        EventModel::Start(n) => Ok((after_open(s, n), Effect::Nothing)),
        EventModel::End(n) => after_close(s, n),
        EventModel::Text(t) => Ok(after_text(s, t)),
        EventModel::Other => Ok((s, Effect::Nothing)),
    }
}

/// The effects of reducing `evs` from `s`, in order, up to the first error,
/// and the final state or that error.
pub open spec fn run(s: StateModel, evs: Seq<EventModel>) -> (Seq<Effect>, Result<StateModel, ExportError>)
    decreases evs.len(),
{
    if evs.len() == 0 {
        (Seq::empty(), Ok(s))
    } else {
        match step(s, evs[0]) {
            Err(x) => (Seq::empty(), Err(x)),
            Ok((s1, a)) => {
                let rest = run(s1, evs.drop_first());
                (seq![a] + rest.0, rest.1)
            },
        }
    }
}

/// Model of the result of one exec step.
pub open spec fn step_view(r: Result<(State, Action), ExportError>) -> Result<(StateModel, Effect), ExportError> {
    match r {
        Ok((s, a)) => Ok((s@, a@)),
        Err(x) => Err(x),
    }
}

fn same_name(a: &str, b: &str) -> (r: bool)
    ensures
        r == (a@ == b@),
{
    let x = a.to_owned();
    let y = b.to_owned();
    x == y
}

/// Enters the context that an opening element names; `note` resets the state.
pub fn open_tag(current_state: State, tag: &str) -> (r: State)
    ensures
        r@ == after_open(current_state@, tag@),
{
    if same_name(tag, "note") {
        State::new()
    } else if same_name(tag, "title") {
        current_state.with_tag(CurrentTag::Title)
    } else if same_name(tag, "data") {
        current_state.with_tag(CurrentTag::ResourceData)
    } else if same_name(tag, "content") {
        current_state.with_tag(CurrentTag::Content)
    } else if same_name(tag, "resource") {
        current_state.with_tag(CurrentTag::Resource)
    } else if same_name(tag, "resource-attributes") {
        current_state.with_tag(CurrentTag::ResourceAttributes)
    } else if same_name(tag, "file-name") {
        current_state.with_tag(CurrentTag::ResourceAttributesFilename)
    } else {
        current_state
    }
}

/// Decodes the gathered payload and says where it is to be written.
pub fn dump_resource(current_state: &State) -> (r: Result<Action, ExportError>)
    requires
        current_state.title is Some,
    ensures
        match r {
            Ok(a) => dump(current_state@) == Ok::<Effect, ExportError>(a@),
            Err(x) => dump(current_state@) == Err::<Effect, ExportError>(x),
        },
{
    match &current_state.title {
        None => Err(ExportError::MissingTitle),
        Some(t) => {
            let name = match &current_state.filename {
                Some(f) => f.clone(),
                None => "content".to_owned(),
            };
            match decode_standard(&current_state.data) {
                Ok(bytes) => Ok(Action::WriteFile { dir: t.clone(), name, bytes }),
                Err(_) => Err(ExportError::InvalidPayload),
            }
        },
    }
}

/// Leaves the current context; closing a resource also writes it out and
/// empties the payload.
pub fn close_tag(current_state: State, tag: &str) -> (r: Result<(State, Action), ExportError>)
    requires
        tag@ == "resource"@ ==> current_state.title is Some,
    ensures
        step_view(r) == after_close(current_state@, tag@),
{
    if same_name(tag, "resource") {
        match dump_resource(&current_state) {
            Ok(a) => Ok((current_state.remove_tag().remove_data(), a)),
            Err(x) => Err(x),
        }
    } else {
        Ok((current_state.remove_tag(), Action::Nothing))
    }
}

/// Interprets a run of text by the current context.
pub fn on_characters(current_state: State, text: String) -> (r: (State, Action))
    ensures
        (r.0@, r.1@) == after_text(current_state@, text@),
        current_state.tag == Some(CurrentTag::Title) ==> is_slug(slug_of(text@)),
{
    match current_state.tag {
        Some(CurrentTag::Title) => {
            let slug = slugify(text.as_str());
            let dir = slug.clone();
            (current_state.with_title(slug), Action::CreateDir(dir))
        },
        Some(CurrentTag::ResourceData) => {
            let State { tag, title, filename, data } = current_state;
            let data = append_stripped(data, text.as_str());
            (State { tag, title, filename, data }, Action::Nothing)
        },
        Some(CurrentTag::ResourceAttributesFilename) => {
            (current_state.with_filename(text), Action::Nothing)
        },
        _ => (current_state, Action::Nothing),
    }
}

/// One step of the reduction: the next state and what to do, or why the
/// run stops.
pub fn reduce(current_state: State, event: Event) -> (r: Result<(State, Action), ExportError>)
    ensures
        step_view(r) == step(current_state@, event@),
{
    match event {
        Event::ElementStart(n) => Ok((open_tag(current_state, n.as_str()), Action::Nothing)),
        Event::ElementEnd(n) => {
            if current_state.title.is_none() && same_name(n.as_str(), "resource") {
                Err(ExportError::MissingTitle)
            } else {
                close_tag(current_state, n.as_str())
            }
        },
        Event::Characters(t) => Ok(on_characters(current_state, t)),
        Event::Other => Ok((current_state, Action::Nothing)),
    }
}

fn copy_event(e: &Event) -> (r: Event)
    ensures
        r@ == e@,
{
    match e {
        Event::ElementStart(n) => Event::ElementStart(n.clone()),
        Event::ElementEnd(n) => Event::ElementEnd(n.clone()),
        Event::Characters(t) => Event::Characters(t.clone()),
        Event::Other => Event::Other,
    }
}

pub open spec fn events_view(events: Seq<Event>) -> Seq<EventModel> {
    events.map_values(|e: Event| e@)
}

pub open spec fn actions_view(actions: Seq<Action>) -> Seq<Effect> {
    actions.map_values(|a: Action| a@)
}

pub open spec fn end_view(r: Result<State, ExportError>) -> Result<StateModel, ExportError> {
    match r {
        Ok(s) => Ok(s@),
        Err(x) => Err(x),
    }
}

/// Reduces a whole document from a fresh state: the actions to perform, in
/// order, up to the first error, and the final state or that error.
pub fn export(events: &Vec<Event>) -> (r: (Vec<Action>, Result<State, ExportError>))
    ensures
        (actions_view(r.0@), end_view(r.1)) == run(fresh(), events_view(events@)),
{
    let ghost evs = events_view(events@);
    let mut actions: Vec<Action> = Vec::new();
    let mut state = State::new();
    let mut i: usize = 0;
    assert(evs.subrange(0, evs.len() as int) =~= evs);
    assert(actions_view(actions@) + run(fresh(), evs).0 =~= run(fresh(), evs).0);
    while i < events.len()
        invariant
            i <= events@.len(),
            evs == events_view(events@),
            run(fresh(), evs) == (
                actions_view(actions@) + run(state@, evs.subrange(i as int, evs.len() as int)).0,
                run(state@, evs.subrange(i as int, evs.len() as int)).1,
            ),
        decreases events@.len() - i,
    {
        let ghost rest = evs.subrange(i as int, evs.len() as int);
        assert(rest.drop_first() =~= evs.subrange(i + 1, evs.len() as int));
        assert(rest[0] == events@[i as int]@);
        let e = copy_event(&events[i]);
        match reduce(state, e) {
            Err(x) => {
                assert(actions_view(actions@) + Seq::<Effect>::empty() =~= actions_view(actions@));
                return (actions, Err(x));
            },
            Ok((next, a)) => {
                let ghost before = actions_view(actions@);
                actions.push(a);
                assert(actions_view(actions@) =~= before.push(a@));
                let ghost tail = run(next@, evs.subrange(i + 1, evs.len() as int));
                assert(before + (seq![a@] + tail.0) =~= before.push(a@) + tail.0);
                state = next;
            },
        }
        i = i + 1;
    }
    assert(evs.subrange(i as int, evs.len() as int) =~= Seq::<EventModel>::empty());
    assert(actions_view(actions@) + Seq::<Effect>::empty() =~= actions_view(actions@));
    (actions, Ok(state))
}

/// What the markup tokenizer makes of a document: its events in order, up
/// to the first parse error, and whether there was one.
pub uninterp spec fn xml_events(doc: Seq<char>) -> (Seq<EventModel>, bool);

/// The length of the run of `]` bytes that ends `b`.
pub open spec fn closing_run(b: Seq<u8>) -> nat
    decreases b.len(),
{
    if b.len() == 0 {
        0
    } else if b.last() == 93u8 {
        closing_run(b.drop_last()) + 1
    } else {
        0
    }
}

/// Every run of `]` in these bytes is shorter than 256. In UTF-8 the byte
/// of `]` stands for nothing else, so this bounds the runs of `]` characters.
pub open spec fn brackets_countable(b: Seq<u8>) -> bool {
    forall|n: int| 0 <= n <= b.len() ==> #[trigger] closing_run(b.subrange(0, n)) < 256
}

/// Whether every run of `]` in the document is shorter than 256.
pub fn brackets_fit(doc: &str) -> (r: bool)
    ensures
        r == brackets_countable(doc.spec_bytes()),
{
    let bytes = doc.as_bytes();
    let mut run: usize = 0;
    let mut i: usize = 0;
    assert(bytes@.subrange(0, 0).len() == 0);
    while i < bytes.len()
        invariant
            i <= bytes@.len(),
            run <= i,
            bytes@ == doc.spec_bytes(),
            run == closing_run(bytes@.subrange(0, i as int)),
            forall|n: int| 0 <= n <= i ==> #[trigger] closing_run(bytes@.subrange(0, n)) < 256,
        decreases bytes@.len() - i,
    {
        assert(bytes@.subrange(0, i + 1).drop_last() =~= bytes@.subrange(0, i as int));
        if bytes[i] == 93u8 {
            run = run + 1;
        } else {
            run = 0;
        }
        i = i + 1;
        if run >= 256 {
            assert(closing_run(bytes@.subrange(0, i as int)) >= 256);
            return false;
        }
    }
    assert(bytes@.subrange(0, i as int) =~= bytes@);
    true
}

/// The bound on a document's length in bytes: the tokenizer counts lines
/// and columns in a `u32`, its line count starting at 1.
pub const LONGEST_DOCUMENT: usize = 0xFFFF_FFFF;

/// A text has no more characters than its UTF-8 encoding has bytes.
pub proof fn lemma_chars_within_bytes(p: Seq<char>)
    ensures
        p.len() <= encode_utf8(p).len(),
    decreases p.len(),
{
    if p.len() > 0 {
        lemma_chars_within_bytes(p.drop_first());
    }
}

/// Relies on xml::Parser (RustyXML): fed a whole document, it yields its
/// events in order; its result depends on the document alone. Inside CDATA
/// it counts a run of `]` in a `u8`, and it counts lines and columns in a
/// `u32`, so longer runs and longer documents are left out.
#[verifier::external_body]
fn tokenize(doc: &str) -> (r: (Vec<Event>, bool))
    requires
        brackets_countable(doc.spec_bytes()),
        doc@.len() < LONGEST_DOCUMENT,
    ensures
        (events_view(r.0@), r.1) == xml_events(doc@),
{
    let mut parser = xml::Parser::new();
    parser.feed_str(doc);
    let mut malformed = false;
    let events = parser.map_while(|item| match item {
        Ok(xml::Event::ElementStart(t)) => Some(Event::ElementStart(t.name)),
        Ok(xml::Event::ElementEnd(t)) => Some(Event::ElementEnd(t.name)),
        Ok(xml::Event::Characters(t)) => Some(Event::Characters(t)),
        Ok(_) => Some(Event::Other),
        Err(_) => { malformed = true; None },
    }).collect();
    (events, malformed)
}

/// What exporting a whole document ends in: the error of the reduction, else
/// `Malformed` where the tokenizer stopped early, else the final state.
pub open spec fn document_end(doc: Seq<char>) -> Result<StateModel, ExportError> {
    let end = run(fresh(), xml_events(doc).0).1;
    if end is Ok && xml_events(doc).1 {
        Err(ExportError::Malformed)
    } else {
        end
    }
}

/// Tokenizes a document and reduces its events from a fresh state: the
/// actions to perform, in order, and how the export ended. A document of
/// `LONGEST_DOCUMENT` bytes or more, or with a run of 256 or more `]`, is
/// refused before anything is done.
pub fn export_document(doc: &str) -> (r: (Vec<Action>, Result<State, ExportError>))
    ensures
        doc.spec_bytes().len() >= LONGEST_DOCUMENT ==> r.0@.len() == 0 && end_view(r.1)
            == Err::<StateModel, ExportError>(ExportError::DocumentTooLong),
        doc.spec_bytes().len() < LONGEST_DOCUMENT && !brackets_countable(doc.spec_bytes())
            ==> r.0@.len() == 0 && end_view(r.1) == Err::<StateModel, ExportError>(
            ExportError::BracketRunTooLong,
        ),
        doc.spec_bytes().len() < LONGEST_DOCUMENT && brackets_countable(doc.spec_bytes())
            ==> actions_view(r.0@) == run(fresh(), xml_events(doc@).0).0 && end_view(r.1)
            == document_end(doc@),
{
    if doc.as_bytes().len() >= LONGEST_DOCUMENT {
        return (Vec::new(), Err(ExportError::DocumentTooLong));
    }
    if !brackets_fit(doc) {
        return (Vec::new(), Err(ExportError::BracketRunTooLong));
    }
    proof {
        lemma_chars_within_bytes(doc@);
    }
    let (events, malformed) = tokenize(doc);
    let (actions, end) = export(&events);
    match end {
        Ok(s) => {
            if malformed {
                (actions, Err(ExportError::Malformed))
            } else {
                (actions, Ok(s))
            }
        },
        Err(x) => (actions, Err(x)),
    }
}

} // verus!
