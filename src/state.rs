use vstd::prelude::*;

verus! {

/// The element the reducer is currently inside, as far as it cares.
#[derive(Debug, Clone, Copy, PartialEq, Eq, Structural)]
pub enum CurrentTag {
    Title,
    Content,
    Resource,
    ResourceData,
    ResourceAttributes,
    ResourceAttributesFilename,
}

/// The accumulator threaded through the reduction of one note.
#[derive(Debug)]
pub struct State {
    pub tag: Option<CurrentTag>,
    /// Slug of the current note's title, once its text was seen.
    pub title: Option<String>,
    /// Text of the last `file-name` element of the current note.
    pub filename: Option<String>,
    /// Encoded resource payload gathered so far, line breaks removed.
    pub data: Vec<u8>,
}

/// Mathematical model of a `State`.
pub struct StateModel {
    pub tag: Option<CurrentTag>,
    pub title: Option<Seq<char>>,
    pub filename: Option<Seq<char>>,
    pub data: Seq<u8>,
}

/// Model of an optional text.
pub open spec fn view_text(s: Option<String>) -> Option<Seq<char>> {
    match s {
        Some(t) => Some(t@),
        None => None,
    }
}

impl View for State {
    type V = StateModel;

    open spec fn view(&self) -> StateModel {
        StateModel {
            tag: self.tag,
            title: view_text(self.title),
            filename: view_text(self.filename),
            data: self.data@,
        }
    }
}

/// The state in which every note starts: nothing seen yet.
pub open spec fn fresh() -> StateModel {
    StateModel { tag: None, title: None, filename: None, data: Seq::empty() }
}

impl State {
    pub fn new() -> (r: Self)
        ensures
            r@ == fresh(),
    {
        State { tag: None, title: None, filename: None, data: Vec::new() }
    }

    pub fn with_title(self, title: String) -> (r: Self)
        ensures
            r@ == (StateModel { title: Some(title@), ..self@ }),
    {
        State { title: Some(title), ..self }
    }

    pub fn with_filename(self, filename: String) -> (r: Self)
        ensures
            r@ == (StateModel { filename: Some(filename@), ..self@ }),
    {
        State { filename: Some(filename), ..self }
    }

    pub fn with_tag(self, tag: CurrentTag) -> (r: Self)
        ensures
            r@ == (StateModel { tag: Some(tag), ..self@ }),
    {
        State { tag: Some(tag), ..self }
    }

    pub fn with_data(self, data: Vec<u8>) -> (r: Self)
        ensures
            r@ == (StateModel { data: data@, ..self@ }),
    {
        State { data, ..self }
    }

    pub fn remove_tag(self) -> (r: Self)
        ensures
            r@ == (StateModel { tag: None, ..self@ }),
    {
        State { tag: None, ..self }
    }

    pub fn remove_data(self) -> (r: Self)
        ensures
            r@ == (StateModel { data: Seq::empty(), ..self@ }),
    {
        State { data: Vec::new(), ..self }
    }
}

} // verus!
