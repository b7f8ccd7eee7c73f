use vstd::prelude::*;
use vstd::utf8::{encode_scalar, encode_utf8, has_width_1_encoding};
use crate::codec::{
    base64_standard, kept, lemma_stripped_concat, lemma_stripped_idempotent, slug_of, stripped,
};
use crate::reducer::{
    after_close, after_open, after_text, resource_file, run, step, tag_named, Effect, EventModel,
    ExportError,
};
use crate::state::{fresh, CurrentTag, StateModel};

verus! {

/// The events of one note that holds only a title.
pub open spec fn note_events(title: Seq<char>) -> Seq<EventModel> {
    seq![
        EventModel::Start("note"@),
        EventModel::Start("title"@),
        EventModel::Text(title),
        EventModel::End("title"@),
        EventModel::End("note"@),
    ]
}

/// A document of notes with these titles, one after the other.
pub open spec fn notes_doc(titles: Seq<Seq<char>>) -> Seq<EventModel>
    decreases titles.len(),
{
    if titles.len() == 0 {
        Seq::empty()
    } else {
        note_events(titles[0]) + notes_doc(titles.drop_first())
    }
}

/// The events of one resource whose payload is one run of text.
pub open spec fn resource_events(payload: Seq<char>) -> Seq<EventModel> {
    seq![
        EventModel::Start("resource"@),
        EventModel::Start("data"@),
        EventModel::Text(payload),
        EventModel::End("data"@),
        EventModel::End("resource"@),
    ]
}

/// The directory that this effect creates, if any.
pub open spec fn dir_of(e: Effect) -> Seq<Seq<char>> {
    match e {
        Effect::CreateDir(d) => seq![d],
        _ => Seq::empty(),
    }
}

/// The directories that these effects create, in order.
pub open spec fn created_dirs(effects: Seq<Effect>) -> Seq<Seq<char>>
    decreases effects.len(),
{
    if effects.len() == 0 {
        Seq::empty()
    } else {
        dir_of(effects[0]) + created_dirs(effects.drop_first())
    }
}

proof fn lemma_run_cons(s: StateModel, e: EventModel, rest: Seq<EventModel>)
    requires
        step(s, e) is Ok,
    ensures
        run(s, seq![e] + rest) == (
            seq![step(s, e)->Ok_0.1] + run(step(s, e)->Ok_0.0, rest).0,
            run(step(s, e)->Ok_0.0, rest).1,
        ),
{
    let evs = seq![e] + rest;
    assert(evs[0] == e);
    assert(evs.drop_first() =~= rest);
}

proof fn lemma_run_concat(s: StateModel, a: Seq<EventModel>, b: Seq<EventModel>)
    requires
        run(s, a).1 is Ok,
    ensures
        run(s, a + b) == (
            run(s, a).0 + run(run(s, a).1->Ok_0, b).0,
            run(run(s, a).1->Ok_0, b).1,
        ),
    decreases a.len(),
{
    if a.len() == 0 {
        assert(a + b =~= b);
        assert(Seq::<Effect>::empty() + run(s, b).0 =~= run(s, b).0);
    } else {
        let s1 = step(s, a[0])->Ok_0.0;
        lemma_run_concat(s1, a.drop_first(), b);
        assert((a + b)[0] == a[0]);
        assert((a + b).drop_first() =~= a.drop_first() + b);
        let x = step(s, a[0])->Ok_0.1;
        let t = run(run(s1, a.drop_first()).1->Ok_0, b).0;
        assert(seq![x] + (run(s1, a.drop_first()).0 + t) =~= (seq![x] + run(
            s1,
            a.drop_first(),
        ).0) + t);
    }
}

proof fn lemma_dirs_cons(e: Effect, rest: Seq<Effect>)
    ensures
        created_dirs(seq![e] + rest) == dir_of(e) + created_dirs(rest),
{
    assert((seq![e] + rest)[0] == e);
    assert((seq![e] + rest).drop_first() =~= rest);
}

proof fn lemma_dirs_concat(x: Seq<Effect>, y: Seq<Effect>)
    ensures
        created_dirs(x + y) == created_dirs(x) + created_dirs(y),
    decreases x.len(),
{
    if x.len() == 0 {
        assert(x + y =~= y);
        assert(Seq::<Seq<char>>::empty() + created_dirs(y) =~= created_dirs(y));
    } else {
        lemma_dirs_concat(x.drop_first(), y);
        assert((x + y)[0] == x[0]);
        assert((x + y).drop_first() =~= x.drop_first() + y);
        let first = dir_of(x[0]);
        assert(first + (created_dirs(x.drop_first()) + created_dirs(y)) =~= (first + created_dirs(
            x.drop_first(),
        )) + created_dirs(y));
    }
}

/// The state in which a note with only a title ends.
pub open spec fn titled(title: Seq<char>) -> StateModel {
    StateModel { tag: None, title: Some(slug_of(title)), filename: None, data: Seq::empty() }
}

proof fn lemma_one_note(s: StateModel, title: Seq<char>)
    ensures
        run(s, note_events(title)) == (
            seq![
                Effect::Nothing,
                Effect::Nothing,
                Effect::CreateDir(slug_of(title)),
                Effect::Nothing,
                Effect::Nothing,
            ],
            Ok::<StateModel, ExportError>(titled(title)),
        ),
{
    reveal_strlit("note");
    reveal_strlit("title");
    reveal_strlit("data");
    reveal_strlit("content");
    reveal_strlit("resource");
    reveal_strlit("resource-attributes");
    reveal_strlit("file-name");
    assert("note"@.len() == 4 && "note"@[0] == 'n');
    assert("title"@.len() == 5);
    assert("data"@.len() == 4 && "data"@[0] == 'd');
    assert("content"@.len() == 7);
    assert("resource"@.len() == 8);
    let e0 = EventModel::Start("note"@);
    let e1 = EventModel::Start("title"@);
    let e2 = EventModel::Text(title);
    let e3 = EventModel::End("title"@);
    let e4 = EventModel::End("note"@);
    let s1 = fresh();
    let s2 = StateModel { tag: Some(CurrentTag::Title), ..fresh() };
    let s3 = StateModel { title: Some(slug_of(title)), ..s2 };
    let s4 = titled(title);
    assert(tag_named("title"@) == Some(CurrentTag::Title));
    assert(after_open(s1, "title"@) == s2);
    let empty = Seq::<EventModel>::empty();
    lemma_run_cons(s4, e4, empty);
    lemma_run_cons(s3, e3, seq![e4] + empty);
    lemma_run_cons(s2, e2, seq![e3] + (seq![e4] + empty));
    lemma_run_cons(s1, e1, seq![e2] + (seq![e3] + (seq![e4] + empty)));
    lemma_run_cons(s, e0, seq![e1] + (seq![e2] + (seq![e3] + (seq![e4] + empty))));
    assert(seq![e0] + (seq![e1] + (seq![e2] + (seq![e3] + (seq![e4] + empty))))
        =~= note_events(title));
    assert(seq![Effect::Nothing] + (seq![Effect::Nothing] + (seq![Effect::CreateDir(slug_of(title))]
        + (seq![Effect::Nothing] + (seq![Effect::Nothing] + Seq::<Effect>::empty()))))
        =~= seq![
        Effect::Nothing,
        Effect::Nothing,
        Effect::CreateDir(slug_of(title)),
        Effect::Nothing,
        Effect::Nothing,
    ]);
}

/// A document of N notes, each with a title, creates exactly N directories,
/// one for each note in order, each named by the slug of that note's title;
/// whatever came before the first note does not matter.
pub proof fn law_one_directory_per_note(s: StateModel, titles: Seq<Seq<char>>)
    ensures
        run(s, notes_doc(titles)).1 is Ok,
        created_dirs(run(s, notes_doc(titles)).0) == titles.map_values(|t: Seq<char>| slug_of(t)),
    decreases titles.len(),
{
    if titles.len() == 0 {
        assert(titles.map_values(|t: Seq<char>| slug_of(t)) =~= Seq::<Seq<char>>::empty());
    } else {
        let t0 = titles[0];
        let rest = titles.drop_first();
        lemma_one_note(s, t0);
        law_one_directory_per_note(titled(t0), rest);
        lemma_run_concat(s, note_events(t0), notes_doc(rest));
        let head = run(s, note_events(t0)).0;
        let tail = run(titled(t0), notes_doc(rest)).0;
        lemma_dirs_concat(head, tail);
        let en = Seq::<Effect>::empty();
        let n = Effect::Nothing;
        let c = Effect::CreateDir(slug_of(t0));
        lemma_dirs_cons(n, en);
        lemma_dirs_cons(n, seq![n] + en);
        lemma_dirs_cons(c, seq![n] + (seq![n] + en));
        lemma_dirs_cons(n, seq![c] + (seq![n] + (seq![n] + en)));
        lemma_dirs_cons(n, seq![n] + (seq![c] + (seq![n] + (seq![n] + en))));
        assert(seq![n] + (seq![n] + (seq![c] + (seq![n] + (seq![n] + en)))) =~= head);
        assert(created_dirs(en) =~= Seq::<Seq<char>>::empty());
        assert(created_dirs(head) =~= seq![slug_of(t0)]);
        assert(titles.map_values(|t: Seq<char>| slug_of(t)) =~= seq![slug_of(t0)]
            + rest.map_values(|t: Seq<char>| slug_of(t)));
    }
}

/// Opening a `note` discards everything pending: what follows behaves as
/// from a fresh state, whatever the state was.
pub proof fn law_note_discards_pending(s: StateModel, rest: Seq<EventModel>)
    ensures
        run(s, seq![EventModel::Start("note"@)] + rest) == (
            seq![Effect::Nothing] + run(fresh(), rest).0,
            run(fresh(), rest).1,
        ),
{
    lemma_run_cons(s, EventModel::Start("note"@), rest);
}

proof fn lemma_encode_concat(a: Seq<char>, b: Seq<char>)
    ensures
        encode_utf8(a + b) == encode_utf8(a) + encode_utf8(b),
    decreases a.len(),
{
    if a.len() == 0 {
        assert(a + b =~= b);
        assert(encode_utf8(a) + encode_utf8(b) =~= encode_utf8(b));
    } else {
        lemma_encode_concat(a.drop_first(), b);
        assert((a + b)[0] == a[0]);
        assert((a + b).drop_first() =~= a.drop_first() + b);
        let h = vstd::utf8::encode_scalar(a[0] as u32);
        assert(h + (encode_utf8(a.drop_first()) + encode_utf8(b)) =~= (h + encode_utf8(
            a.drop_first(),
        )) + encode_utf8(b));
    }
}

/// A payload split into two runs of text gathers the same bytes as the
/// payload in one run.
pub proof fn law_split_payload(s: StateModel, a: Seq<char>, b: Seq<char>)
    requires
        s.tag == Some(CurrentTag::ResourceData),
    ensures
        after_text(after_text(s, a).0, b) == after_text(s, a + b),
{
    lemma_encode_concat(a, b);
    lemma_stripped_concat(encode_utf8(a), encode_utf8(b));
    let x = stripped(encode_utf8(a));
    let y = stripped(encode_utf8(b));
    assert(s.data + x + y =~= s.data + (x + y));
}

/// A resource in a titled note is written, under its file name or
/// `content`, as the standard base64 decoding of its payload with line
/// breaks removed; where that payload is not valid base64 the run stops
/// with an error and nothing is written.
pub proof fn law_resource_written(s: StateModel, payload: Seq<char>)
    requires
        s.title is Some,
        s.data == Seq::<u8>::empty(),
    ensures
        ({
            let r = run(s, resource_events(payload));
            let bytes = stripped(encode_utf8(payload));
            match base64_standard(bytes) {
                Some(out) => r == (
                    seq![
                        Effect::Nothing,
                        Effect::Nothing,
                        Effect::Nothing,
                        Effect::Nothing,
                        Effect::WriteFile(s.title->0, resource_file(s), out),
                    ],
                    Ok::<StateModel, ExportError>(StateModel { tag: None, ..s }),
                ),
                None => r == (
                    seq![Effect::Nothing, Effect::Nothing, Effect::Nothing, Effect::Nothing],
                    Err::<StateModel, ExportError>(ExportError::InvalidPayload),
                ),
            }
        }),
{
    reveal_strlit("note");
    reveal_strlit("title");
    reveal_strlit("data");
    reveal_strlit("content");
    reveal_strlit("resource");
    reveal_strlit("resource-attributes");
    reveal_strlit("file-name");
    assert("note"@.len() == 4 && "note"@[0] == 'n');
    assert("title"@.len() == 5);
    assert("data"@.len() == 4 && "data"@[0] == 'd');
    assert("content"@.len() == 7);
    assert("resource"@.len() == 8);
    let bytes = stripped(encode_utf8(payload));
    assert(s.data + bytes =~= bytes);
    let e0 = EventModel::Start("resource"@);
    let e1 = EventModel::Start("data"@);
    let e2 = EventModel::Text(payload);
    let e3 = EventModel::End("data"@);
    let e4 = EventModel::End("resource"@);
    let s1 = StateModel { tag: Some(CurrentTag::Resource), ..s };
    let s2 = StateModel { tag: Some(CurrentTag::ResourceData), ..s };
    let s3 = StateModel { data: bytes, ..s2 };
    let s4 = StateModel { tag: None, ..s3 };
    assert(tag_named("resource"@) == Some(CurrentTag::Resource));
    assert(tag_named("data"@) == Some(CurrentTag::ResourceData));
    let empty = Seq::<EventModel>::empty();
    assert(seq![e0] + (seq![e1] + (seq![e2] + (seq![e3] + (seq![e4] + empty))))
        =~= resource_events(payload));
    let ev4 = seq![e4] + empty;
    assert(ev4[0] == e4);
    assert(ev4.drop_first() =~= empty);
    lemma_run_cons(s3, e3, ev4);
    lemma_run_cons(s2, e2, seq![e3] + ev4);
    lemma_run_cons(s1, e1, seq![e2] + (seq![e3] + ev4));
    lemma_run_cons(s, e0, seq![e1] + (seq![e2] + (seq![e3] + ev4)));
    match base64_standard(bytes) {
        Some(out) => {
            lemma_run_cons(s4, e4, empty);
            assert(StateModel { tag: None, data: Seq::empty(), ..s4 } == StateModel {
                tag: None,
                ..s
            });
            assert(seq![Effect::Nothing] + (seq![Effect::Nothing] + (seq![Effect::Nothing] + (
            seq![Effect::Nothing] + (seq![Effect::WriteFile(s.title->0, resource_file(s), out)]
                + Seq::<Effect>::empty())))) =~= seq![
                Effect::Nothing,
                Effect::Nothing,
                Effect::Nothing,
                Effect::Nothing,
                Effect::WriteFile(s.title->0, resource_file(s), out),
            ]);
        },
        None => {
            assert(seq![Effect::Nothing] + (seq![Effect::Nothing] + (seq![Effect::Nothing] + (
            seq![Effect::Nothing] + Seq::<Effect>::empty()))) =~= seq![
                Effect::Nothing,
                Effect::Nothing,
                Effect::Nothing,
                Effect::Nothing,
            ]);
        },
    }
}

/// Runs of text, one event each.
pub open spec fn text_events(runs: Seq<Seq<char>>) -> Seq<EventModel> {
    runs.map_values(|t: Seq<char>| EventModel::Text(t))
}

/// Runs of text joined in order.
pub open spec fn joined(runs: Seq<Seq<char>>) -> Seq<char>
    decreases runs.len(),
{
    if runs.len() == 0 {
        Seq::empty()
    } else {
        runs[0] + joined(runs.drop_first())
    }
}

/// Any number of runs of text inside a `data` element gather the payload
/// of the joined text, line breaks removed, after what was gathered before;
/// closing the resource then writes the standard base64 decoding of it.
pub proof fn law_payload_runs(s: StateModel, runs: Seq<Seq<char>>)
    requires
        s.tag == Some(CurrentTag::ResourceData),
    ensures
        run(s, text_events(runs)) == (
            Seq::new(runs.len(), |i: int| Effect::Nothing),
            Ok::<StateModel, ExportError>(
                StateModel { data: s.data + stripped(encode_utf8(joined(runs))), ..s },
            ),
        ),
        s.title is Some && s.data.len() == 0 ==> after_close(
            StateModel { data: s.data + stripped(encode_utf8(joined(runs))), ..s },
            "resource"@,
        ) == match base64_standard(stripped(encode_utf8(joined(runs)))) {
            Some(out) => Ok((
                StateModel { tag: None, data: Seq::empty(), ..s },
                Effect::WriteFile(s.title->0, resource_file(s), out),
            )),
            None => Err(ExportError::InvalidPayload),
        },
    decreases runs.len(),
{
    let evs = text_events(runs);
    let bytes = stripped(encode_utf8(joined(runs)));
    assert(s.data.len() == 0 ==> s.data + bytes =~= bytes);
    if runs.len() == 0 {
        assert(joined(runs) =~= Seq::<char>::empty());
        assert(stripped(encode_utf8(Seq::<char>::empty())) =~= Seq::<u8>::empty());
        assert(s.data + Seq::<u8>::empty() =~= s.data);
        assert(Seq::new(0, |i: int| Effect::Nothing) =~= Seq::<Effect>::empty());
    } else {
        let r0 = runs[0];
        let rest = runs.drop_first();
        let s1 = StateModel { data: s.data + stripped(encode_utf8(r0)), ..s };
        assert(evs[0] == EventModel::Text(r0));
        assert(evs.drop_first() =~= text_events(rest));
        law_payload_runs(s1, rest);
        lemma_encode_concat(r0, joined(rest));
        lemma_stripped_concat(encode_utf8(r0), encode_utf8(joined(rest)));
        assert(s1.data + stripped(encode_utf8(joined(rest))) =~= s.data + bytes);
        assert(seq![Effect::Nothing] + Seq::new(rest.len(), |i: int| Effect::Nothing) =~= Seq::new(
            runs.len(),
            |i: int| Effect::Nothing,
        ));
    }
}

/// Whether a character is a carriage return or a line feed.
pub open spec fn line_break(c: char) -> bool {
    c == '\r' || c == '\n'
}

/// The characters of `p` without carriage returns and line feeds, in order.
pub open spec fn without_breaks(p: Seq<char>) -> Seq<char>
    decreases p.len(),
{
    if p.len() == 0 {
        Seq::empty()
    } else {
        (if line_break(p[0]) {
            Seq::empty()
        } else {
            seq![p[0]]
        }) + without_breaks(p.drop_first())
    }
}

proof fn lemma_all_kept(b: Seq<u8>)
    requires
        forall|i: int| 0 <= i < b.len() ==> kept(#[trigger] b[i]),
    ensures
        stripped(b) == b,
    decreases b.len(),
{
    if b.len() > 0 {
        lemma_all_kept(b.drop_last());
        assert(b.drop_last().push(b.last()) =~= b);
    }
}

proof fn lemma_high_bit(y: u8)
    ensures
        0x80u8 <= (0x80u8 | y),
        0x80u8 <= (0xC0u8 | y),
        0x80u8 <= (0xE0u8 | y),
        0x80u8 <= (0xF0u8 | y),
{
    assert(0x80u8 <= (0x80u8 | y)) by (bit_vector);
    assert(0x80u8 <= (0xC0u8 | y)) by (bit_vector);
    assert(0x80u8 <= (0xE0u8 | y)) by (bit_vector);
    assert(0x80u8 <= (0xF0u8 | y)) by (bit_vector);
}

proof fn lemma_low_byte(v: u32)
    requires
        v <= 0x7F,
    ensures
        (v & 0x7F) == v,
{
    assert((v & 0x7F) == v) by (bit_vector)
        requires
            v <= 0x7F,
    ;
}

proof fn lemma_strip_scalar(c: char)
    ensures
        stripped(encode_utf8(seq![c])) == encode_utf8(if line_break(c) {
            Seq::<char>::empty()
        } else {
            seq![c]
        }),
{
    let v = c as u32;
    let e = encode_scalar(v);
    assert(seq![c].drop_first() =~= Seq::<char>::empty());
    assert(seq![c][0] == c);
    assert(encode_utf8(Seq::<char>::empty()) =~= Seq::<u8>::empty());
    assert(e + Seq::<u8>::empty() =~= e);
    assert(encode_utf8(seq![c]) =~= e);
    if has_width_1_encoding(v) {
        lemma_low_byte(v);
        assert(e[0] == v as u8);
        if line_break(c) {
            assert(e =~= seq![e[0]]);
            assert(!kept(e[0]));
            assert(e.drop_last() =~= Seq::<u8>::empty());
            assert(e.last() == e[0]);
            assert(stripped(Seq::<u8>::empty()) =~= Seq::<u8>::empty());
            assert(stripped(e) =~= Seq::<u8>::empty());
        } else {
            assert(v != 10 && v != 13);
            lemma_all_kept(e);
        }
    } else {
        lemma_high_bit(((v >> 6) & 0x1F) as u8);
        lemma_high_bit(((v >> 12) & 0x0F) as u8);
        lemma_high_bit(((v >> 18) & 0x7) as u8);
        lemma_high_bit((v & 0x3F) as u8);
        lemma_high_bit(((v >> 6) & 0x3F) as u8);
        lemma_high_bit(((v >> 12) & 0x3F) as u8);
        assert(!line_break(c));
        lemma_all_kept(e);
    }
}

/// Removing line breaks from the UTF-8 bytes of a text gives the bytes of
/// the text with its line-break characters removed.
pub proof fn lemma_strip_chars(p: Seq<char>)
    ensures
        stripped(encode_utf8(p)) == encode_utf8(without_breaks(p)),
    decreases p.len(),
{
    if p.len() > 0 {
        let c = p[0];
        let rest = p.drop_first();
        lemma_strip_chars(rest);
        assert(p =~= seq![c] + rest);
        lemma_encode_concat(seq![c], rest);
        lemma_stripped_concat(encode_utf8(seq![c]), encode_utf8(rest));
        lemma_strip_scalar(c);
        let first = if line_break(c) {
            Seq::<char>::empty()
        } else {
            seq![c]
        };
        lemma_encode_concat(first, without_breaks(rest));
    }
}

/// A resource whose payload holds line breaks is written exactly as one whose
/// payload had them removed by hand beforehand.
pub proof fn law_prestripped_payload(s: StateModel, payload: Seq<char>)
    requires
        s.title is Some,
        s.data == Seq::<u8>::empty(),
    ensures
        run(s, resource_events(payload)) == run(s, resource_events(without_breaks(payload))),
{
    lemma_strip_chars(payload);
    lemma_stripped_idempotent(encode_utf8(payload));
    law_resource_written(s, payload);
    law_resource_written(s, without_breaks(payload));
}

/// The events of a note: its title, then `body`.
pub open spec fn note_with(title: Seq<char>, body: Seq<EventModel>) -> Seq<EventModel> {
    seq![
        EventModel::Start("note"@),
        EventModel::Start("title"@),
        EventModel::Text(title),
        EventModel::End("title"@),
    ] + (body + seq![EventModel::End("note"@)])
}

/// Events that open no `title` element.
pub open spec fn title_free(body: Seq<EventModel>) -> bool {
    forall|i: int| 0 <= i < body.len() ==> body[i] != EventModel::Start("title"@)
}

/// A document of notes with these titles and bodies, one after the other.
pub open spec fn full_doc(titles: Seq<Seq<char>>, bodies: Seq<Seq<EventModel>>) -> Seq<EventModel>
    decreases titles.len(),
{
    if titles.len() == 0 || bodies.len() == 0 {
        Seq::empty()
    } else {
        note_with(titles[0], bodies[0]) + full_doc(titles.drop_first(), bodies.drop_first())
    }
}

proof fn lemma_run_err(s: StateModel, a: Seq<EventModel>, b: Seq<EventModel>)
    requires
        run(s, a).1 is Err,
    ensures
        run(s, a + b) == run(s, a),
    decreases a.len(),
{
    assert(a.len() > 0);
    assert((a + b)[0] == a[0]);
    assert((a + b).drop_first() =~= a.drop_first() + b);
    if step(s, a[0]) is Ok {
        lemma_run_err(step(s, a[0])->Ok_0.0, a.drop_first(), b);
    }
}

proof fn lemma_body_no_dirs(s: StateModel, evs: Seq<EventModel>)
    requires
        s.tag != Some(CurrentTag::Title),
        title_free(evs),
    ensures
        created_dirs(run(s, evs).0) == Seq::<Seq<char>>::empty(),
    decreases evs.len(),
{
    if evs.len() == 0 {
    } else if step(s, evs[0]) is Ok {
        let (s1, a) = step(s, evs[0])->Ok_0;
        if let EventModel::Start(n) = evs[0] {
            assert(n != "title"@);
            if n != "note"@ {
                assert(tag_named(n) != Some(CurrentTag::Title));
            }
        }
        assert(s1.tag != Some(CurrentTag::Title));
        assert(!(a is CreateDir));
        let rest = evs.drop_first();
        assert forall|i: int| 0 <= i < rest.len() implies rest[i] != EventModel::Start("title"@) by {
            assert(rest[i] == evs[i + 1]);
        }
        lemma_body_no_dirs(s1, rest);
        lemma_dirs_cons(a, run(s1, rest).0);
        assert(dir_of(a) =~= Seq::<Seq<char>>::empty());
        assert(Seq::<Seq<char>>::empty() + Seq::<Seq<char>>::empty() =~= Seq::<Seq<char>>::empty());
    }
}

proof fn lemma_note_with(s: StateModel, title: Seq<char>, body: Seq<EventModel>)
    requires
        title_free(body),
    ensures
        created_dirs(run(s, note_with(title, body)).0) == seq![slug_of(title)],
{
    reveal_strlit("note");
    reveal_strlit("title");
    reveal_strlit("resource");
    assert("note"@.len() == 4);
    assert("title"@.len() == 5);
    assert("resource"@.len() == 8);
    let e0 = EventModel::Start("note"@);
    let e1 = EventModel::Start("title"@);
    let e2 = EventModel::Text(title);
    let e3 = EventModel::End("title"@);
    let e4 = EventModel::End("note"@);
    let s2 = StateModel { tag: Some(CurrentTag::Title), ..fresh() };
    let s3 = StateModel { title: Some(slug_of(title)), ..s2 };
    let s4 = titled(title);
    assert(tag_named("title"@) == Some(CurrentTag::Title));
    let empty = Seq::<EventModel>::empty();
    lemma_run_cons(s3, e3, empty);
    lemma_run_cons(s2, e2, seq![e3] + empty);
    lemma_run_cons(fresh(), e1, seq![e2] + (seq![e3] + empty));
    lemma_run_cons(s, e0, seq![e1] + (seq![e2] + (seq![e3] + empty)));
    let head = seq![e0, e1, e2, e3];
    assert(seq![e0] + (seq![e1] + (seq![e2] + (seq![e3] + empty))) =~= head);
    let n = Effect::Nothing;
    let c = Effect::CreateDir(slug_of(title));
    let en = Seq::<Effect>::empty();
    assert(run(s, head).0 =~= seq![n] + (seq![n] + (seq![c] + (seq![n] + en))));
    assert(run(s, head).1 == Ok::<StateModel, ExportError>(s4));
    lemma_dirs_cons(n, en);
    lemma_dirs_cons(c, seq![n] + en);
    lemma_dirs_cons(n, seq![c] + (seq![n] + en));
    lemma_dirs_cons(n, seq![n] + (seq![c] + (seq![n] + en)));
    assert(created_dirs(en) =~= Seq::<Seq<char>>::empty());
    assert(created_dirs(run(s, head).0) =~= seq![slug_of(title)]);
    let tail = body + seq![e4];
    lemma_run_concat(s, head, tail);
    lemma_dirs_concat(run(s, head).0, run(s4, tail).0);
    // the body and the closing `note` create nothing
    assert(title_free(tail)) by {
        assert forall|i: int| 0 <= i < tail.len() implies tail[i] != EventModel::Start("title"@) by {
            if i < body.len() {
                assert(tail[i] == body[i]);
            } else {
                assert(tail[i] == e4);
            }
        }
    }
    lemma_body_no_dirs(s4, tail);
    assert(seq![slug_of(title)] + Seq::<Seq<char>>::empty() =~= seq![slug_of(title)]);
}

/// A document of N notes, each with a title and a body that opens no other
/// title, creates exactly N directories when it is exported without error:
/// one for each note in order, named by the slug of its title.
pub proof fn law_one_directory_per_titled_note(
    s: StateModel,
    titles: Seq<Seq<char>>,
    bodies: Seq<Seq<EventModel>>,
)
    requires
        titles.len() == bodies.len(),
        forall|k: int| 0 <= k < bodies.len() ==> title_free(#[trigger] bodies[k]),
    ensures
        run(s, full_doc(titles, bodies)).1 is Ok ==> created_dirs(run(s, full_doc(titles, bodies)).0)
            == titles.map_values(|t: Seq<char>| slug_of(t)),
    decreases titles.len(),
{
    if titles.len() == 0 {
        assert(titles.map_values(|t: Seq<char>| slug_of(t)) =~= Seq::<Seq<char>>::empty());
        assert(full_doc(titles, bodies) =~= Seq::<EventModel>::empty());
    } else {
        let t0 = titles[0];
        let b0 = bodies[0];
        let note = note_with(t0, b0);
        let rest = full_doc(titles.drop_first(), bodies.drop_first());
        assert(title_free(bodies[0]));
        lemma_note_with(s, t0, b0);
        if run(s, note).1 is Ok {
            let s1 = run(s, note).1->Ok_0;
            assert forall|k: int| 0 <= k < bodies.drop_first().len() implies title_free(
                #[trigger] bodies.drop_first()[k],
            ) by {
                assert(bodies.drop_first()[k] == bodies[k + 1]);
            }
            law_one_directory_per_titled_note(s1, titles.drop_first(), bodies.drop_first());
            lemma_run_concat(s, note, rest);
            lemma_dirs_concat(run(s, note).0, run(s1, rest).0);
            assert(titles.map_values(|t: Seq<char>| slug_of(t)) =~= seq![slug_of(t0)]
                + titles.drop_first().map_values(|t: Seq<char>| slug_of(t)));
        } else {
            lemma_run_err(s, note, rest);
        }
    }
}

/// A payload that holds no carriage return or line feed.
pub open spec fn clean(data: Seq<u8>) -> bool {
    forall|i: int| 0 <= i < data.len() ==> kept(#[trigger] data[i])
}

proof fn lemma_stripped_clean(b: Seq<u8>)
    ensures
        clean(stripped(b)),
    decreases b.len(),
{
    if b.len() > 0 {
        lemma_stripped_clean(b.drop_last());
        let p = stripped(b.drop_last());
        if kept(b.last()) {
            assert forall|i: int| 0 <= i < p.push(b.last()).len() implies kept(
                #[trigger] p.push(b.last())[i],
            ) by {
                if i < p.len() {
                    assert(p.push(b.last())[i] == p[i]);
                }
            }
        }
    }
}

/// The gathered payload never holds a carriage return or a line feed: a
/// fresh state has none, and no step that succeeds brings one in.
pub proof fn law_payload_stays_clean(s: StateModel, e: EventModel)
    requires
        clean(s.data),
    ensures
        clean(fresh().data),
        step(s, e) is Ok ==> clean(step(s, e)->Ok_0.0.data),
{
    if let EventModel::Text(t) = e {
        if s.tag == Some(CurrentTag::ResourceData) {
            let x = stripped(encode_utf8(t));
            lemma_stripped_clean(encode_utf8(t));
            assert forall|i: int| 0 <= i < (s.data + x).len() implies kept(
                #[trigger] (s.data + x)[i],
            ) by {
                if i < s.data.len() {
                    assert((s.data + x)[i] == s.data[i]);
                } else {
                    assert((s.data + x)[i] == x[i - s.data.len()]);
                }
            }
        }
    }
}

} // verus!
