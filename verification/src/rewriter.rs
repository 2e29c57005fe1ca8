//! The streaming rewriter: one pass over the events of a feed that rewrites
//! the titles of its items and writes every other event back as it came.

use crate::rules::{converted, RuleView, TitleConverter};
use crate::text::chars_of;
use crate::xml::{
    escape_text, escaped, event_markup, markup, next_event, open_reader, pending, tokenized,
    unescape_text, unescaped, EventKind, EventView, XmlEvent,
};
use vstd::prelude::*;
use vstd::string::StringExecFns;

verus! {

/// Where a pass stands: inside an item, inside the title of an item, and the
/// title text gathered so far.
#[derive(Debug, Clone)]
pub struct ParseScope {
    pub inside_item: bool,
    pub inside_title: bool,
    pub title_buffer: String,
}

/// The state of a pass as a mathematical value.
pub struct ScopeView {
    pub inside_item: bool,
    pub inside_title: bool,
    pub title: Seq<char>,
}

impl View for ParseScope {
    type V = ScopeView;

    open spec fn view(&self) -> ScopeView {
        ScopeView {
            inside_item: self.inside_item,
            inside_title: self.inside_title,
            title: self.title_buffer@,
        }
    }
}

/// A malformed document: the parser's message and the output that was written
/// before the failure.
#[derive(Debug, Clone)]
pub struct ParseError {
    pub message: String,
    pub partial: String,
}

/// The white space that ends an element's name.
pub open spec fn is_space(c: char) -> bool {
    c == ' ' || c == '\t' || c == '\r' || c == '\n'
}

/// The length of the name that `content` begins with: the number of characters
/// before the first white space.
pub open spec fn name_len(content: Seq<char>) -> nat
    decreases content.len(),
{
    if content.len() == 0 || is_space(content[0]) {
        0
    } else {
        1 + name_len(content.skip(1))
    }
}

/// The element name of a tag: for a start tag what stands before its
/// attributes, for an end tag its whole content.
pub open spec fn tag_name(event: EventView) -> Seq<char> {
    if event.kind == EventKind::Start {
        event.content.take(name_len(event.content) as int)
    } else {
        event.content
    }
}

/// The state in which a pass begins: outside every item.
pub open spec fn initial_scope() -> ScopeView {
    ScopeView { inside_item: false, inside_title: false, title: Seq::empty() }
}

/// Whether the pass is inside the title of an item.
pub open spec fn in_title(scope: ScopeView) -> bool {
    scope.inside_item && scope.inside_title
}

/// The state after `event`.
pub open spec fn next_scope(scope: ScopeView, event: EventView) -> ScopeView {
    match event.kind {
        EventKind::Start => if tag_name(event) == "item"@ {
            ScopeView { inside_item: true, ..scope }
        } else if tag_name(event) == "title"@ && scope.inside_item {
            ScopeView { inside_item: true, inside_title: true, title: Seq::empty() }
        } else {
            scope
        },
        EventKind::End => if tag_name(event) == "item"@ {
            ScopeView { inside_item: false, inside_title: false, ..scope }
        } else if tag_name(event) == "title"@ && in_title(scope) {
            ScopeView { inside_title: false, ..scope }
        } else {
            scope
        },
        EventKind::Text => if in_title(scope) {
            match unescaped(event.content) {
                Some(text) => ScopeView { title: scope.title + text, ..scope },
                None => scope,
            }
        } else {
            scope
        },
        EventKind::CData => if in_title(scope) {
            ScopeView { title: scope.title + event.content, ..scope }
        } else {
            scope
        },
        _ => scope,
    }
}

/// What `event` adds to the output. Text and character data inside a title are
/// held back; the end of a title is preceded by the gathered title as `rules`
/// rewrite it, escaped as text; every other event is written as it came.
pub open spec fn emitted(scope: ScopeView, event: EventView, rules: Seq<RuleView>) -> Seq<char> {
    if in_title(scope) && (event.kind == EventKind::Text || event.kind == EventKind::CData) {
        Seq::empty()
    } else if in_title(scope) && event.kind == EventKind::End && tag_name(event) == "title"@ {
        markup(EventKind::Text, escaped(converted(rules, scope.title))) + markup(
            event.kind,
            event.content,
        )
    } else {
        markup(event.kind, event.content)
    }
}

/// The output of a pass that is in state `scope` and has `events` before it.
pub open spec fn rewritten_from(
    scope: ScopeView,
    events: Seq<EventView>,
    rules: Seq<RuleView>,
) -> Seq<char>
    decreases events.len(),
{
    if events.len() == 0 {
        Seq::empty()
    } else {
        emitted(scope, events[0], rules) + rewritten_from(
            next_scope(scope, events[0]),
            events.skip(1),
            rules,
        )
    }
}

/// The output of a whole pass over `events`.
pub open spec fn rewritten(events: Seq<EventView>, rules: Seq<RuleView>) -> Seq<char> {
    rewritten_from(initial_scope(), events, rules)
}

/// Whether `event` is a tag with the element name `name`.
pub fn has_tag_name(event: &XmlEvent, name: &str) -> (b: bool)
    ensures
        b == (tag_name(event@) == name@),
{
    let content = chars_of(event.content.as_str());
    let expected = chars_of(name);
    let mut end: usize = content.len();
    if event.kind == EventKind::Start {
        end = 0;
        assert(content@.skip(0) == content@);
        while end < content.len() && !(content[end] == ' ' || content[end] == '\t' || content[end]
            == '\r' || content[end] == '\n')
            invariant
                end <= content.len(),
                name_len(content@) == end + name_len(content@.skip(end as int)),
            decreases content.len() - end,
        {
            assert(content@.skip(end as int)[0] == content@[end as int]);
            assert(content@.skip(end as int).skip(1) == content@.skip(end + 1));
            end += 1;
        }
        assert(name_len(content@) == end) by {
            if end < content.len() {
                assert(content@.skip(end as int)[0] == content@[end as int]);
            }
        }
    }
    assert(tag_name(event@) =~= content@.take(end as int));
    if expected.len() != end {
        assert(tag_name(event@).len() != name@.len());
        return false;
    }
    let mut k: usize = 0;
    while k < end
        invariant
            k <= end,
            end == expected.len(),
            end <= content.len(),
            expected@ == name@,
            tag_name(event@) == content@.take(end as int),
            forall|j: int| 0 <= j < k ==> content@[j] == expected@[j],
        decreases end - k,
    {
        if content[k] != expected[k] {
            assert(content@.take(end as int)[k as int] != expected@[k as int]);
            return false;
        }
        k += 1;
    }
    assert(content@.take(end as int) =~= expected@);
    true
}

impl ParseScope {
    /// The state in which a pass begins.
    pub fn new() -> (scope: ParseScope)
        ensures
            scope@ == initial_scope(),
    {
        ParseScope { inside_item: false, inside_title: false, title_buffer: String::new() }
    }

    /// Takes one event: moves the state on and appends to `out` what the event
    /// adds to the output.
    pub fn step(&mut self, event: &XmlEvent, converter: &TitleConverter, out: &mut String)
        ensures
            final(self)@ == next_scope(old(self)@, event@),
            final(out)@ == old(out)@ + emitted(old(self)@, event@, converter@),
    {
        let inside = self.inside_item && self.inside_title;
        proof {
            reveal_strlit("item");
            reveal_strlit("title");
            assert("item"@.len() != "title"@.len());
        }
        match event.kind {
            EventKind::Start => {
                if has_tag_name(event, "item") {
                    self.inside_item = true;
                } else if self.inside_item && has_tag_name(event, "title") {
                    self.inside_title = true;
                    self.title_buffer = String::new();
                }
                let text = event_markup(event.kind, event.content.as_str());
                out.append(text.as_str());
            },
            EventKind::End => {
                if has_tag_name(event, "item") {
                    self.inside_item = false;
                    self.inside_title = false;
                } else if inside && has_tag_name(event, "title") {
                    self.inside_title = false;
                    let title = converter.convert_title(self.title_buffer.as_str());
                    let text = escape_text(title.as_str());
                    let written = event_markup(EventKind::Text, text.as_str());
                    out.append(written.as_str());
                }
                let text = event_markup(event.kind, event.content.as_str());
                out.append(text.as_str());
                assert(out@ =~= old(out)@ + emitted(old(self)@, event@, converter@));
            },
            EventKind::Text => {
                if inside {
                    match unescape_text(event.content.as_str()) {
                        Some(text) => {
                            self.title_buffer.append(text.as_str());
                        },
                        None => {},
                    }
                } else {
                    let text = event_markup(event.kind, event.content.as_str());
                    out.append(text.as_str());
                }
            },
            EventKind::CData => {
                if inside {
                    self.title_buffer.append(event.content.as_str());
                } else {
                    let text = event_markup(event.kind, event.content.as_str());
                    out.append(text.as_str());
                }
            },
            _ => {
                let text = event_markup(event.kind, event.content.as_str());
                out.append(text.as_str());
            },
        }
    }
}

/// Rewrites a document that is given as its events.
pub fn rewrite_events(events: &Vec<XmlEvent>, converter: &TitleConverter) -> (out: String)
    ensures
        out@ == rewritten(events.deep_view(), converter@),
{
    let mut scope = ParseScope::new();
    let mut out = String::new();
    let mut i: usize = 0;
    let ghost all = events.deep_view();
    assert(all.skip(0) == all);
    while i < events.len()
        invariant
            i <= events.len(),
            all == events.deep_view(),
            out@ + rewritten_from(scope@, all.skip(i as int), converter@) == rewritten(
                all,
                converter@,
            ),
        decreases events.len() - i,
    {
        assert(all.skip(i as int)[0] == events[i as int]@);
        assert(all.skip(i as int).skip(1) == all.skip(i + 1));
        scope.step(&events[i], converter, &mut out);
        i += 1;
    }
    out
}

/// Rewrites the titles of the items of `raw_xml`. Text is trimmed of
/// surrounding white space as the document is read. A malformed document ends
/// the pass where the parser fails: the error then carries the parser's
/// message and the output up to that point.
pub fn rewrite_feed(raw_xml: &str, converter: &TitleConverter) -> (r: Result<String, ParseError>)
    ensures
        match tokenized(raw_xml@, true).failure {
            None => r matches Ok(out) && out@ == rewritten(
                tokenized(raw_xml@, true).events,
                converter@,
            ),
            Some(message) => r matches Err(e) && e.message@ == message && e.partial@ == rewritten(
                tokenized(raw_xml@, true).events,
                converter@,
            ),
        },
{
    let mut reader = open_reader(raw_xml, true);
    let mut scope = ParseScope::new();
    let mut out = String::new();
    let ghost all = tokenized(raw_xml@, true);
    loop
        invariant
            all == tokenized(raw_xml@, true),
            pending(&reader).failure == all.failure,
            out@ + rewritten_from(scope@, pending(&reader).events, converter@) == rewritten(
                all.events,
                converter@,
            ),
        decreases pending(&reader).events.len(),
    {
        match next_event(&mut reader) {
            Ok(Some(event)) => {
                scope.step(&event, converter, &mut out);
                assert(out@ + rewritten_from(scope@, pending(&reader).events, converter@)
                    =~= rewritten(all.events, converter@));
            },
            Ok(None) => {
                assert(out@ =~= rewritten(all.events, converter@));
                return Ok(out);
            },
            Err(message) => {
                assert(out@ =~= rewritten(all.events, converter@));
                return Err(ParseError { message, partial: out });
            },
        }
    }
}

/// The events written out one after the other, each as it came.
pub open spec fn serialized(events: Seq<EventView>) -> Seq<char>
    decreases events.len(),
{
    if events.len() == 0 {
        Seq::empty()
    } else {
        markup(events[0].kind, events[0].content) + serialized(events.skip(1))
    }
}

/// Whether `event` opens the title of an item.
pub open spec fn opens_title(scope: ScopeView, event: EventView) -> bool {
    event.kind == EventKind::Start && tag_name(event) == "title"@ && scope.inside_item
}

/// Whether `event` is the end tag of a title.
pub open spec fn closes_title(event: EventView) -> bool {
    event.kind == EventKind::End && tag_name(event) == "title"@
}

/// Title text that a pass gives back as it was written: it holds no entity
/// that unescaping would resolve and no character that escaping would change,
/// and the rules leave it alone.
pub open spec fn plain_text(raw: Seq<char>, rules: Seq<RuleView>) -> bool {
    unescaped(raw) matches Some(text) && converted(rules, text) == text && escaped(text) == raw
}

/// Whether every title of an item in `events` is empty or one run of plain
/// text, for a pass that stands in `scope` outside a title.
pub open spec fn plain_titles(
    scope: ScopeView,
    events: Seq<EventView>,
    rules: Seq<RuleView>,
) -> bool
    decreases events.len(),
{
    if events.len() == 0 {
        true
    } else if !opens_title(scope, events[0]) {
        plain_titles(next_scope(scope, events[0]), events.skip(1), rules)
    } else if events.len() >= 2 && closes_title(events[1]) {
        converted(rules, Seq::empty()) == Seq::<char>::empty() && plain_titles(
            next_scope(next_scope(scope, events[0]), events[1]),
            events.skip(2),
            rules,
        )
    } else if events.len() >= 3 && events[1].kind == EventKind::Text && closes_title(events[2]) {
        plain_text(events[1].content, rules) && plain_titles(
            next_scope(next_scope(next_scope(scope, events[0]), events[1]), events[2]),
            events.skip(3),
            rules,
        )
    } else {
        false
    }
}

/// A pass changes nothing in a document whose item titles are plain text that
/// no rule rewrites: what it writes is the events it read, each as it came.
///
/// That the events of a document, written out again, give back the document
/// but for trimmed white space is the parser's part and not stated here.
pub proof fn lemma_plain_titles_unchanged(
    scope: ScopeView,
    events: Seq<EventView>,
    rules: Seq<RuleView>,
)
    requires
        !scope.inside_title,
        plain_titles(scope, events, rules),
    ensures
        rewritten_from(scope, events, rules) == serialized(events),
    decreases events.len(),
{
    reveal_strlit("item");
    reveal_strlit("title");
    reveal_strlit("");
    assert("item"@.len() != "title"@.len());
    if events.len() == 0 {
    } else if !opens_title(scope, events[0]) {
        lemma_plain_titles_unchanged(next_scope(scope, events[0]), events.skip(1), rules);
    } else {
        let opened = next_scope(scope, events[0]);
        let rest = events.skip(1);
        assert(rest[0] == events[1]);
        let last = rest.skip(1);
        assert(last == events.skip(2));
        assert(serialized(rest) == markup(events[1].kind, events[1].content) + serialized(last));
        assert(rewritten_from(opened, rest, rules) == emitted(opened, events[1], rules)
            + rewritten_from(next_scope(opened, events[1]), last, rules));
        if closes_title(events[1]) {
            let closed = next_scope(opened, events[1]);
            lemma_plain_titles_unchanged(closed, last, rules);
            assert(escaped(Seq::<char>::empty()) == Seq::<char>::empty());
            assert(emitted(opened, events[1], rules) =~= markup(events[1].kind, events[1].content));
        } else {
            let held = next_scope(opened, events[1]);
            let closed = next_scope(held, events[2]);
            assert(last[0] == events[2]);
            let tail = last.skip(1);
            assert(tail == events.skip(3));
            assert(serialized(last) == markup(events[2].kind, events[2].content) + serialized(
                tail,
            ));
            assert(rewritten_from(held, last, rules) == emitted(held, events[2], rules)
                + rewritten_from(closed, tail, rules));
            lemma_plain_titles_unchanged(closed, tail, rules);
            let text = unescaped(events[1].content).unwrap();
            assert(held.title =~= text);
            assert(emitted(opened, events[1], rules) =~= Seq::<char>::empty());
            assert(emitted(held, events[2], rules) =~= markup(
                events[1].kind,
                events[1].content,
            ) + markup(events[2].kind, events[2].content));
            assert(rewritten_from(opened, rest, rules) =~= serialized(rest));
        }
    }
}

/// A pass changes nothing in a document that holds no title tag.
pub proof fn lemma_without_titles_unchanged(
    scope: ScopeView,
    events: Seq<EventView>,
    rules: Seq<RuleView>,
)
    requires
        !scope.inside_title,
        forall|i: int|
            0 <= i < events.len() ==> !(events[i].kind == EventKind::Start && tag_name(events[i])
                == "title"@),
    ensures
        rewritten_from(scope, events, rules) == serialized(events),
    decreases events.len(),
{
    if events.len() > 0 {
        let rest = events.skip(1);
        assert forall|i: int| 0 <= i < rest.len() implies !(rest[i].kind == EventKind::Start
            && tag_name(rest[i]) == "title"@) by {
            assert(rest[i] == events[i + 1]);
        }
        lemma_without_titles_unchanged(next_scope(scope, events[0]), rest, rules);
    }
}

/// The title of an item that is written as character data comes out as
/// escaped text, also where no rule rewrites it.
pub proof fn lemma_cdata_title_becomes_text(
    scope: ScopeView,
    start: EventView,
    cdata: EventView,
    end: EventView,
    rules: Seq<RuleView>,
)
    requires
        opens_title(scope, start),
        cdata.kind == EventKind::CData,
        closes_title(end),
    ensures
        rewritten_from(scope, seq![start, cdata, end], rules) == markup(start.kind, start.content)
            + escaped(converted(rules, cdata.content)) + markup(end.kind, end.content),
{
    reveal_strlit("item");
    reveal_strlit("title");
    reveal_strlit("");
    assert("item"@.len() != "title"@.len());
    let events = seq![start, cdata, end];
    let opened = next_scope(scope, start);
    let held = next_scope(opened, cdata);
    let closed = next_scope(held, end);
    let rest = events.skip(1);
    let last = rest.skip(1);
    let tail = last.skip(1);
    assert(rest[0] == cdata);
    assert(last[0] == end);
    assert(tail.len() == 0);
    assert(rewritten_from(closed, tail, rules) == Seq::<char>::empty());
    assert(rewritten_from(held, last, rules) == emitted(held, end, rules) + rewritten_from(
        closed,
        tail,
        rules,
    ));
    assert(rewritten_from(opened, rest, rules) == emitted(opened, cdata, rules) + rewritten_from(
        held,
        last,
        rules,
    ));
    assert(held.title =~= cdata.content);
    assert(emitted(opened, cdata, rules) =~= Seq::<char>::empty());
    assert(markup(EventKind::Text, escaped(converted(rules, held.title))) =~= escaped(
        converted(rules, cdata.content),
    ));
    assert(rewritten_from(scope, events, rules) =~= markup(start.kind, start.content) + escaped(
        converted(rules, cdata.content),
    ) + markup(end.kind, end.content));
}

} // verus!
