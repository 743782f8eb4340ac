//! Notes attached to inventoried items: which items may carry notes, the checks made
//! before a note is saved or deleted, and how a note's Markdown is rendered (addresses
//! linked, raw HTML shown as text, the HTML sanitized).
use vstd::prelude::*;
use crate::google::my_groups::byte_len;
use crate::text::{str_eq, trim, trim_str};
use crate::web::markdown::{
    emits_view, fits, markdown_events_of, markdown_html, markdown_html_of, parse_markdown, tagged_view, Emit, EmitView,
    MarkdownEvent, MarkdownEventView, MarkdownTag,
};

verus! {

/// The item a note belongs to: its kind and key.
#[derive(Debug, Clone)]
pub struct Target {
    pub kind: String,
    pub key: String,
}

/// A saved note: its text, the text rendered for display, and its revision.
#[derive(Debug, Clone)]
pub struct Note {
    pub id: i64,
    pub body: String,
    pub html: String,
    pub revision: i64,
}

/// The notes of one item, oldest first.
#[derive(Debug, Clone)]
pub struct Notes {
    pub target: Target,
    pub notes: Vec<Note>,
}

/// A new note (no id) or an edit of note `id` at `revision`.
#[derive(Debug, Clone)]
pub struct Save {
    pub target: Target,
    pub id: Option<i64>,
    pub revision: Option<i64>,
    pub body: String,
}

/// The deletion of note `id` at `revision`.
#[derive(Debug, Clone)]
pub struct Delete {
    pub target: Target,
    pub id: i64,
    pub revision: i64,
}

/// The HTTP status of a refused request.
pub const BAD_REQUEST: u16 = 400;

pub const CONFLICT: u16 = 409;

/// The kinds of items that can carry notes.
pub open spec fn note_kind(kind: Seq<char>) -> bool {
    kind == "drive"@ || kind == "keeper-folder"@ || kind == "keeper-record"@ || kind == "github"@ || kind
        == "local"@
}

/// A target that can carry notes: a known kind and a key that is not blank and at most
/// 8,192 bytes long.
pub open spec fn target_ok(kind: Seq<char>, key: Seq<char>) -> bool {
    note_kind(kind) && trim(key).len() > 0 && byte_len(key) <= 8192
}

impl Target {
    pub fn valid(&self) -> (r: bool)
        ensures
            r == target_ok(self.kind@, self.key@),
    {
        let k = self.kind.as_str();
        let known = str_eq(k, "drive") || str_eq(k, "keeper-folder") || str_eq(k, "keeper-record") || str_eq(
            k,
            "github",
        ) || str_eq(k, "local");
        known && !trim_str(self.key.as_str()).as_str().is_empty() && self.key.as_str().len() <= 8192
    }
}

/// The targets of one request for notes: at most 200, each valid.
pub fn check_targets(targets: &Vec<Target>) -> (r: Result<(), (u16, String)>)
    ensures
        r is Ok <==> (targets@.len() <= 200 && forall|k: int|
            0 <= k < targets@.len() ==> target_ok((#[trigger] targets@[k]).kind@, targets@[k].key@)),
        r matches Err((status, m)) ==> status == BAD_REQUEST && m@ == "Invalid note targets."@,
{
    if targets.len() > 200 {
        return Err((BAD_REQUEST, "Invalid note targets.".to_owned()));
    }
    let mut k: usize = 0;
    while k < targets.len()
        invariant
            k <= targets@.len(),
            forall|m: int| 0 <= m < k ==> target_ok((#[trigger] targets@[m]).kind@, targets@[m].key@),
        decreases targets.len() - k,
    {
        if !targets[k].valid() {
            return Err((BAD_REQUEST, "Invalid note targets.".to_owned()));
        }
        k = k + 1;
    }
    Ok(())
}

/// A note that can be saved: a valid target and a text that is not blank and at most
/// 65,536 bytes long.
pub fn check_save(input: &Save) -> (r: Result<(), (u16, String)>)
    ensures
        r is Ok <==> (target_ok(input.target.kind@, input.target.key@) && trim(input.body@).len() > 0 && byte_len(
            input.body@,
        ) <= 65536),
        r matches Err((status, m)) ==> status == BAD_REQUEST && m@ == "Enter a note between 1 and 65,536 bytes."@,
{
    if !input.target.valid() || trim_str(input.body.as_str()).as_str().is_empty() || input.body.as_str().len()
        > 65536 {
        return Err((BAD_REQUEST, "Enter a note between 1 and 65,536 bytes.".to_owned()));
    }
    Ok(())
}

/// A deletion that can be attempted: a valid target and a positive id and revision.
pub fn check_delete(input: &Delete) -> (r: Result<(), (u16, String)>)
    ensures
        r is Ok <==> (target_ok(input.target.kind@, input.target.key@) && input.id > 0 && input.revision > 0),
        r matches Err((status, m)) ==> status == BAD_REQUEST && m@ == "Invalid note selection."@,
{
    if !input.target.valid() || input.id <= 0 || input.revision <= 0 {
        return Err((BAD_REQUEST, "Invalid note selection.".to_owned()));
    }
    Ok(())
}

/// The outcome of an edit that changed `changed` notes: none means the note was
/// edited elsewhere since it was read (or belongs to another item).
pub fn edit_outcome(changed: usize) -> (r: Result<(), (u16, String)>)
    ensures
        r is Ok <==> changed > 0,
        r matches Err((status, m)) ==> status == CONFLICT && m@
            == "This note changed in another window. Copy your edits, reload, and try again."@,
{
    if changed == 0 {
        return Err((CONFLICT, "This note changed in another window. Copy your edits, reload, and try again.".to_owned()));
    }
    Ok(())
}

/// The outcome of a deletion that removed `changed` notes: none means the note was
/// changed or deleted elsewhere (or belongs to another item).
pub fn delete_outcome(changed: usize) -> (r: Result<(), (u16, String)>)
    ensures
        r is Ok <==> changed > 0,
        r matches Err((status, m)) ==> status == CONFLICT && m@
            == "This note changed or was deleted in another window. Reload before trying again."@,
{
    if changed == 0 {
        return Err(
            (CONFLICT, "This note changed or was deleted in another window. Reload before trying again.".to_owned()),
        );
    }
    Ok(())
}

} // verus!

verus! {

/// The spans linkify's `LinkFinder` (default settings) splits a text into, in order:
/// each with its text and, for a link, whether it is an e-mail address.
pub uninterp spec fn link_spans_of(text: Seq<char>) -> Seq<(Seq<char>, Option<bool>)>;

/// The texts of consecutive spans, joined.
pub open spec fn joined_spans(spans: Seq<(Seq<char>, Option<bool>)>) -> Seq<char>
    decreases spans.len(),
{
    if spans.len() == 0 {
        seq![]
    } else {
        spans[0].0 + joined_spans(spans.drop_first())
    }
}

/// `linkify::LinkFinder::spans` with the default finder. Its documentation promises
/// that the spans are consecutive and together are the whole text; nothing is stated
/// of where the links are found.
#[verifier::external_body]
fn link_spans(text: &str) -> (r: Vec<(String, Option<bool>)>)
    ensures
        r@.map_values(|s: (String, Option<bool>)| (s.0@, s.1)) == link_spans_of(text@),
        joined_spans(r@.map_values(|s: (String, Option<bool>)| (s.0@, s.1))) == text@,
{
    let mut r = Vec::new();
    for span in linkify::LinkFinder::new().spans(text) {
        let email = match span.kind() {
            Some(linkify::LinkKind::Email) => Some(true),
            Some(_) => Some(false),
            None => None,
        };
        r.push((span.as_str().to_owned(), email));
    }
    r
}

/// Where a found link points: an e-mail address gets `mailto:`.
pub open spec fn link_url(text: Seq<char>, email: bool) -> Seq<char> {
    if email {
        "mailto:"@ + text
    } else {
        text
    }
}

/// The parts a found link becomes: an inline link to its address, with no title and no
/// reference id, around its text.
pub open spec fn link_parts(text: Seq<char>, email: bool) -> Seq<EmitView> {
    seq![
        EmitView::StartInlineLink { url: link_url(text, email), title: seq![], id: seq![] },
        EmitView::Text(text),
        EmitView::EndLink,
    ]
}

/// What a text outside links and code becomes: plain spans as text, each link as
/// `link_parts`, with a text (possibly empty) before every link and after the last;
/// `pending` is the plain text not yet emitted.
pub open spec fn link_emits(spans: Seq<(Seq<char>, Option<bool>)>, pending: Seq<char>) -> Seq<EmitView>
    decreases spans.len(),
{
    if spans.len() == 0 {
        seq![EmitView::Text(pending)]
    } else {
        match spans[0].1 {
            None => link_emits(spans.drop_first(), pending + spans[0].0),
            Some(email) => seq![EmitView::Text(pending)] + link_parts(spans[0].0, email) + link_emits(
                spans.drop_first(),
                seq![],
            ),
        }
    }
}

/// The text that parts show, joined (unchanged events and link bounds show nothing here).
pub open spec fn shown_text(emits: Seq<EmitView>) -> Seq<char>
    decreases emits.len(),
{
    if emits.len() == 0 {
        seq![]
    } else {
        let first = match emits[0] {
            EmitView::Text(t) => t,
            _ => Seq::<char>::empty(),
        };
        first + shown_text(emits.drop_first())
    }
}

/// Whether an element keeps its text as written: links, images and code blocks.
pub open spec fn keeps_text(tag: Option<MarkdownTag>) -> bool {
    tag == Some(MarkdownTag::Link) || tag == Some(MarkdownTag::Image) || tag == Some(MarkdownTag::CodeBlock)
}

/// Links, images and code blocks open before event `n` (started minus ended).
pub open spec fn literal_depth(events: Seq<(MarkdownEventView, Option<MarkdownTag>)>, n: int) -> int
    decreases n,
{
    if n <= 0 {
        0
    } else {
        let (event, tag) = events[n - 1];
        literal_depth(events, n - 1) + match event {
            MarkdownEventView::Start => if keeps_text(tag) { 1int } else { 0int },
            MarkdownEventView::End => if keeps_text(tag) { -1int } else { 0int },
            _ => 0int,
        }
    }
}

/// What event `i` becomes: raw HTML, block or inline, is shown as text, text outside
/// links, images and code blocks gets its addresses linked, and everything else stays.
pub open spec fn event_emits(events: Seq<(MarkdownEventView, Option<MarkdownTag>)>, i: int) -> Seq<EmitView> {
    match events[i].0 {
        MarkdownEventView::Html(t) => seq![EmitView::Text(t)],
        MarkdownEventView::InlineHtml(t) => seq![EmitView::Text(t)],
        MarkdownEventView::Text(t) => if literal_depth(events, i) == 0 {
            link_emits(link_spans_of(t), seq![])
        } else {
            seq![EmitView::Same(i as usize)]
        },
        _ => seq![EmitView::Same(i as usize)],
    }
}

/// What the first `n` events become.
pub open spec fn rewritten(events: Seq<(MarkdownEventView, Option<MarkdownTag>)>, n: int) -> Seq<EmitView>
    decreases n,
{
    if n <= 0 {
        seq![]
    } else {
        rewritten(events, n - 1) + event_emits(events, n - 1)
    }
}

proof fn lemma_shown_text_concat(a: Seq<EmitView>, b: Seq<EmitView>)
    ensures
        shown_text(a + b) == shown_text(a) + shown_text(b),
    decreases a.len(),
{
    if a.len() == 0 {
        assert(a + b =~= b);
    } else {
        lemma_shown_text_concat(a.drop_first(), b);
        assert((a + b).drop_first() =~= a.drop_first() + b);
        assert((a + b)[0] == a[0]);
    }
}

proof fn lemma_link_parts_shown(text: Seq<char>, email: bool)
    ensures
        shown_text(link_parts(text, email)) == text,
{
    let p = link_parts(text, email);
    let last = p.drop_first().drop_first();
    assert(last.drop_first() =~= Seq::<EmitView>::empty());
    assert(shown_text(last.drop_first()) == Seq::<char>::empty());
    assert(last[0] == EmitView::EndLink);
    assert(shown_text(last) =~= Seq::<char>::empty());
    assert(shown_text(p.drop_first()) =~= text);
    assert(shown_text(p) =~= text);
}

proof fn lemma_link_emits_shown(spans: Seq<(Seq<char>, Option<bool>)>, pending: Seq<char>)
    ensures
        shown_text(link_emits(spans, pending)) == pending + joined_spans(spans),
    decreases spans.len(),
{
    if spans.len() == 0 {
        let e = seq![EmitView::Text(pending)];
        assert(shown_text(e.drop_first()) == Seq::<char>::empty());
        assert(pending + joined_spans(spans) =~= pending);
        assert(shown_text(e) =~= pending);
    } else {
        let rest = spans.drop_first();
        match spans[0].1 {
            None => {
                lemma_link_emits_shown(rest, pending + spans[0].0);
                assert(pending + spans[0].0 + joined_spans(rest) =~= pending + joined_spans(spans));
            },
            Some(email) => {
                let lead = seq![EmitView::Text(pending)];
                let parts = link_parts(spans[0].0, email);
                lemma_link_emits_shown(rest, seq![]);
                lemma_link_parts_shown(spans[0].0, email);
                lemma_shown_text_concat(lead, parts);
                lemma_shown_text_concat(lead + parts, link_emits(rest, seq![]));
                assert(shown_text(lead.drop_first()) == Seq::<char>::empty());
                assert(shown_text(lead) =~= pending);
                assert(Seq::<char>::empty() + joined_spans(rest) =~= joined_spans(rest));
                assert(pending + spans[0].0 + joined_spans(rest) =~= pending + joined_spans(spans));
            },
        }
    }
}

/// Linking the addresses in a text shows the whole text, in order: the spans it is
/// split into appear as text or as link text, nothing added or lost.
pub proof fn law_linking_keeps_the_text(spans: Seq<(Seq<char>, Option<bool>)>)
    ensures
        shown_text(link_emits(spans, seq![])) == joined_spans(spans),
{
    lemma_link_emits_shown(spans, seq![]);
    assert(Seq::<char>::empty() + joined_spans(spans) =~= joined_spans(spans));
}

/// The text of a note outside links and code with its web and e-mail addresses made
/// links: exactly `link_emits` of the spans linkify finds, and the whole text is shown.
pub fn autolink(text: &str) -> (r: Vec<Emit>)
    ensures
        emits_view(r@) == link_emits(link_spans_of(text@), seq![]),
        shown_text(emits_view(r@)) == text@,
{
    let spans = link_spans(text);
    let ghost sv = spans@.map_values(|s: (String, Option<bool>)| (s.0@, s.1));
    let mut r: Vec<Emit> = Vec::new();
    let mut pending = String::new();
    let mut k: usize = 0;
    assert(sv.skip(0) =~= sv);
    assert(emits_view(r@) + link_emits(sv.skip(0), pending@) =~= link_emits(sv, seq![]));
    while k < spans.len()
        invariant
            k <= spans@.len(),
            sv == spans@.map_values(|s: (String, Option<bool>)| (s.0@, s.1)),
            emits_view(r@) + link_emits(sv.skip(k as int), pending@) == link_emits(sv, seq![]),
        decreases spans.len() - k,
    {
        let ghost before = emits_view(r@);
        let ghost rest = sv.skip(k as int);
        let ghost p0 = pending@;
        assert(rest[0] == sv[k as int]);
        assert(rest.drop_first() =~= sv.skip(k + 1));
        assert(sv[k as int] == (spans@[k as int].0@, spans@[k as int].1));
        match spans[k].1 {
            None => {
                pending.append(spans[k].0.as_str());
                assert(pending@ == p0 + rest[0].0);
            },
            Some(email) => {
                let shown = spans[k].0.clone();
                let url = if email {
                    let mut u = "mailto:".to_owned();
                    u.append(shown.as_str());
                    u
                } else {
                    shown.clone()
                };
                assert(url@ == link_url(rest[0].0, email));
                let p = pending;
                pending = String::new();
                r.push(Emit::Text(p));
                r.push(Emit::StartInlineLink { url, title: String::new(), id: String::new() });
                r.push(Emit::Text(shown));
                r.push(Emit::EndLink);
                let ghost head = seq![EmitView::Text(p0)] + link_parts(rest[0].0, email);
                assert(emits_view(r@) =~= before + head);
                assert(link_emits(rest, p0) == head + link_emits(sv.skip(k + 1), seq![]));
                assert(before + (head + link_emits(sv.skip(k + 1), seq![])) =~= (before + head) + link_emits(
                    sv.skip(k + 1),
                    seq![],
                ));
            },
        }
        k = k + 1;
    }
    let ghost before = emits_view(r@);
    assert(sv.skip(k as int) =~= Seq::<(Seq<char>, Option<bool>)>::empty());
    r.push(Emit::Text(pending));
    assert(emits_view(r@) =~= before + link_emits(sv.skip(k as int), pending@));
    proof {
        lemma_link_emits_shown(sv, seq![]);
        assert(Seq::<char>::empty() + joined_spans(sv) =~= joined_spans(sv));
    }
    r
}

/// How many of the first `n` events start (or, with `end`, end) an element `tag`.
pub open spec fn tag_events(
    events: Seq<(MarkdownEventView, Option<MarkdownTag>)>,
    n: int,
    tag: MarkdownTag,
    end: bool,
) -> int
    decreases n,
{
    if n <= 0 {
        0
    } else {
        tag_events(events, n - 1, tag, end) + if events[n - 1].1 == Some(tag) && (if end {
            events[n - 1].0 is End
        } else {
            events[n - 1].0 is Start
        }) {
            1int
        } else {
            0int
        }
    }
}

/// The links, images and code blocks open before event `n`, counted element by element.
pub open spec fn open_literals(events: Seq<(MarkdownEventView, Option<MarkdownTag>)>, n: int) -> int {
    (tag_events(events, n, MarkdownTag::Link, false) - tag_events(events, n, MarkdownTag::Link, true)) + (tag_events(
        events,
        n,
        MarkdownTag::Image,
        false,
    ) - tag_events(events, n, MarkdownTag::Image, true)) + (tag_events(events, n, MarkdownTag::CodeBlock, false)
        - tag_events(events, n, MarkdownTag::CodeBlock, true))
}

proof fn lemma_depth_counts(events: Seq<(MarkdownEventView, Option<MarkdownTag>)>, n: int)
    requires
        0 <= n <= events.len(),
    ensures
        literal_depth(events, n) == open_literals(events, n),
    decreases n,
{
    if n > 0 {
        lemma_depth_counts(events, n - 1);
    }
}

proof fn lemma_depth_flat(events: Seq<(MarkdownEventView, Option<MarkdownTag>)>, a: int, b: int)
    requires
        0 <= a <= b <= events.len(),
        forall|m: int| a <= m < b ==> !(#[trigger] events[m].0 is Start) && !(events[m].0 is End),
    ensures
        literal_depth(events, b) == literal_depth(events, a),
    decreases b - a,
{
    if b > a {
        lemma_depth_flat(events, a, b - 1);
        let (event, tag) = events[b - 1];
        assert(!(event is Start) && !(event is End));
    }
}

/// Text inside a link, an image or a code block is never linked: when such an element
/// starts at event `k`, nothing starts or ends between it and the text at event `i`,
/// and before `k` no element ended more often than it started, the rewrite emits the
/// text event unchanged.
pub proof fn law_text_in_code_and_links_is_kept(
    events: Seq<(MarkdownEventView, Option<MarkdownTag>)>,
    tag: MarkdownTag,
    k: int,
    i: int,
)
    requires
        0 <= k < i < events.len(),
        tag == MarkdownTag::Link || tag == MarkdownTag::Image || tag == MarkdownTag::CodeBlock,
        events[k] == (MarkdownEventView::Start, Some(tag)),
        events[i].0 is Text,
        forall|m: int| k < m < i ==> !(#[trigger] events[m].0 is Start) && !(events[m].0 is End),
        forall|t: MarkdownTag| #[trigger] tag_events(events, k, t, true) <= tag_events(events, k, t, false),
    ensures
        rewritten(events, i + 1) == rewritten(events, i).push(EmitView::Same(i as usize)),
{
    lemma_depth_counts(events, k);
    assert(tag_events(events, k, MarkdownTag::Link, true) <= tag_events(events, k, MarkdownTag::Link, false));
    assert(tag_events(events, k, MarkdownTag::Image, true) <= tag_events(events, k, MarkdownTag::Image, false));
    assert(tag_events(events, k, MarkdownTag::CodeBlock, true) <= tag_events(events, k, MarkdownTag::CodeBlock, false));
    assert(literal_depth(events, k) >= 0);
    assert(literal_depth(events, k + 1) == literal_depth(events, k) + 1);
    lemma_depth_flat(events, k + 1, i);
    assert(literal_depth(events, i) >= 1);
    assert(rewritten(events, i + 1) =~= rewritten(events, i).push(EmitView::Same(i as usize)));
}

/// Raw HTML, block or inline, is never passed through: the rewrite shows it as text.
pub proof fn law_raw_html_is_shown_as_text(events: Seq<(MarkdownEventView, Option<MarkdownTag>)>, i: int)
    requires
        0 <= i < events.len(),
        events[i].0 is Html || events[i].0 is InlineHtml,
    ensures
        rewritten(events, i + 1) == rewritten(events, i).push(
            EmitView::Text(
                match events[i].0 {
                    MarkdownEventView::Html(t) => t,
                    MarkdownEventView::InlineHtml(t) => t,
                    _ => seq![],
                },
            ),
        ),
{
    assert(rewritten(events, i + 1) =~= rewritten(events, i) + event_emits(events, i));
}

/// Text outside every link, image and code block gets its addresses linked: when each
/// such element that started before the text at event `i` has ended, the rewrite emits
/// `link_emits` of the spans linkify finds in it.
pub proof fn law_text_outside_literals_is_linked(events: Seq<(MarkdownEventView, Option<MarkdownTag>)>, i: int)
    requires
        0 <= i < events.len(),
        events[i].0 is Text,
        tag_events(events, i, MarkdownTag::Link, true) == tag_events(events, i, MarkdownTag::Link, false),
        tag_events(events, i, MarkdownTag::Image, true) == tag_events(events, i, MarkdownTag::Image, false),
        tag_events(events, i, MarkdownTag::CodeBlock, true) == tag_events(events, i, MarkdownTag::CodeBlock, false),
    ensures
        rewritten(events, i + 1) == rewritten(events, i) + link_emits(link_spans_of(events[i].0->Text_0), seq![]),
{
    lemma_depth_counts(events, i);
    assert(literal_depth(events, i) == 0);
}

/// Whether an element keeps its text as written: links, images and code blocks.
pub fn is_literal(tag: Option<MarkdownTag>) -> (r: bool)
    ensures
        r == keeps_text(tag),
{
    match tag {
        Some(MarkdownTag::Link) | Some(MarkdownTag::Image) | Some(MarkdownTag::CodeBlock) => true,
        _ => false,
    }
}

/// Note rendering's pass over the Markdown events: raw HTML is shown as text, text
/// outside links, images and code blocks gets its addresses linked (`autolink`), and
/// every other event is kept.
pub fn rewrite_events(events: &Vec<(MarkdownEvent, Option<MarkdownTag>)>) -> (r: Vec<Emit>)
    ensures
        emits_view(r@) == rewritten(tagged_view(events@), events@.len() as int),
{
    let ghost ev = tagged_view(events@);
    let mut r: Vec<Emit> = Vec::new();
    let mut opened: usize = 0;
    let mut closed: usize = 0;
    let mut i: usize = 0;
    while i < events.len()
        invariant
            i <= events@.len(),
            ev == tagged_view(events@),
            opened <= i && closed <= i,
            opened - closed == literal_depth(ev, i as int),
            emits_view(r@) == rewritten(ev, i as int),
        decreases events.len() - i,
    {
        let ghost before = emits_view(r@);
        assert(ev[i as int] == (events@[i as int].0@, events@[i as int].1));
        let literal = is_literal(events[i].1);
        match &events[i].0 {
            MarkdownEvent::Start => {
                if literal {
                    opened = opened + 1;
                }
                r.push(Emit::Same(i));
            },
            MarkdownEvent::End => {
                if literal {
                    closed = closed + 1;
                }
                r.push(Emit::Same(i));
            },
            MarkdownEvent::Html(t) => {
                r.push(Emit::Text(t.clone()));
            },
            MarkdownEvent::InlineHtml(t) => {
                r.push(Emit::Text(t.clone()));
            },
            MarkdownEvent::Text(t) => {
                if opened == closed {
                    let mut linked = autolink(t.as_str());
                    let ghost added = emits_view(linked@);
                    r.append(&mut linked);
                    assert(emits_view(r@) =~= before + added);
                } else {
                    r.push(Emit::Same(i));
                }
            },
            _ => {
                r.push(Emit::Same(i));
            },
        }
        assert(emits_view(r@) =~= before + event_emits(ev, i as int));
        i = i + 1;
    }
    r
}

/// What `ammonia::Builder::clean` makes of `html` with relative URLs denied, only
/// `schemes` allowed in URLs, `attribute` set to `value` on every `tag`, and `rel` on
/// links.
pub uninterp spec fn cleaned_html_of(
    html: Seq<char>,
    schemes: Seq<Seq<char>>,
    tag: Seq<char>,
    attribute: Seq<char>,
    value: Seq<char>,
    rel: Seq<char>,
) -> Seq<char>;

/// `ammonia::Builder::clean`, configured as its arguments say and with relative URLs
/// denied; its result is named, not described.
#[verifier::external_body]
fn clean_html(html: &str, schemes: &Vec<&str>, tag: &str, attribute: &str, value: &str, rel: &str) -> (r: String)
    ensures
        r@ == cleaned_html_of(html@, schemes@.map_values(|s: &str| s@), tag@, attribute@, value@, rel@),
{
    ammonia::Builder::default()
        .url_schemes(schemes.iter().copied().collect())
        .url_relative(ammonia::UrlRelative::Deny)
        .set_tag_attribute_value(tag, attribute, value)
        .link_rel(Some(rel))
        .clean(html)
        .to_string()
}

/// The schemes a rendered note may link to.
pub open spec fn note_schemes() -> Seq<Seq<char>> {
    seq!["https"@, "http"@, "mailto"@]
}

/// Sanitizes the HTML of a rendered note: only web and e-mail links, no relative URLs,
/// links open in a new tab without referrer or opener.
pub fn sanitize_note(html: &str) -> (r: String)
    ensures
        r@ == cleaned_html_of(html@, note_schemes(), "a"@, "target"@, "_blank"@, "noopener noreferrer"@),
{
    let mut schemes: Vec<&str> = Vec::new();
    schemes.push("https");
    schemes.push("http");
    schemes.push("mailto");
    assert(schemes@.map_values(|s: &str| s@) =~= note_schemes());
    clean_html(html, &schemes, "a", "target", "_blank", "noopener noreferrer")
}

} // verus!

verus! {

/// The Markdown extensions notes use: tables (bit 1), strikethrough (bit 3) and task
/// lists (bit 4), as `pulldown_cmark::Options` bits.
pub const MARKDOWN_OPTIONS: u32 = 26;

proof fn lemma_link_emits_fit(spans: Seq<(Seq<char>, Option<bool>)>, pending: Seq<char>, n: int)
    ensures
        forall|k: int| 0 <= k < link_emits(spans, pending).len() ==> fits(#[trigger] link_emits(spans, pending)[k], n),
    decreases spans.len(),
{
    let r = link_emits(spans, pending);
    if spans.len() == 0 {
        assert(r == seq![EmitView::Text(pending)]);
        assert(r.len() == 1 && fits(r[0], n));
    } else {
        let rest = spans.drop_first();
        match spans[0].1 {
            None => {
                lemma_link_emits_fit(rest, pending + spans[0].0, n);
                assert(r == link_emits(rest, pending + spans[0].0));
            },
            Some(email) => {
                lemma_link_emits_fit(rest, seq![], n);
                let head = seq![EmitView::Text(pending)] + link_parts(spans[0].0, email);
                let tail = link_emits(rest, seq![]);
                assert(r == head + tail);
                assert(head.len() == 4);
                assert forall|k: int| 0 <= k < r.len() implies fits(#[trigger] r[k], n) by {
                    if k >= 4 {
                        assert(r[k] == tail[k - 4]);
                    } else {
                        assert(r[k] == head[k]);
                    }
                }
            },
        }
    }
}

proof fn lemma_rewritten_fits(events: Seq<(MarkdownEventView, Option<MarkdownTag>)>, m: int)
    requires
        0 <= m <= events.len(),
        events.len() <= usize::MAX,
    ensures
        forall|k: int| 0 <= k < rewritten(events, m).len() ==> fits(#[trigger] rewritten(events, m)[k], m),
    decreases m,
{
    if m > 0 {
        lemma_rewritten_fits(events, m - 1);
        let prev = rewritten(events, m - 1);
        let last = event_emits(events, m - 1);
        match events[m - 1].0 {
            MarkdownEventView::Text(t) => {
                lemma_link_emits_fit(link_spans_of(t), seq![], m);
            },
            _ => {},
        }
        assert forall|k: int| 0 <= k < rewritten(events, m).len() implies fits(#[trigger] rewritten(events, m)[k], m) by {
            if k < prev.len() {
                assert(rewritten(events, m)[k] == prev[k]);
                assert(fits(prev[k], m - 1));
            } else {
                assert(rewritten(events, m)[k] == last[k - prev.len()]);
            }
        }
    }
}

/// The HTML of a note: its Markdown with tables, strikethrough and task lists, raw HTML
/// shown as text, addresses outside links and code linked, then sanitized.
pub open spec fn rendered_note(body: Seq<char>) -> Seq<char> {
    let events = markdown_events_of(body, MARKDOWN_OPTIONS);
    cleaned_html_of(
        markdown_html_of(body, MARKDOWN_OPTIONS, rewritten(events, events.len() as int)),
        note_schemes(),
        "a"@,
        "target"@,
        "_blank"@,
        "noopener noreferrer"@,
    )
}

/// Renders a note's Markdown for display.
pub fn render(body: &str) -> (r: String)
    ensures
        r@ == rendered_note(body@),
{
    let events = parse_markdown(body, MARKDOWN_OPTIONS);
    let plan = rewrite_events(&events);
    proof {
        let ev = tagged_view(events@);
        assert(ev.len() == events@.len());
        lemma_rewritten_fits(ev, events@.len() as int);
        assert forall|k: int| 0 <= k < plan@.len() implies fits(#[trigger] plan@[k]@, ev.len() as int) by {
            assert(emits_view(plan@)[k] == plan@[k]@);
        }
    }
    let page = markdown_html(body, MARKDOWN_OPTIONS, plan);
    sanitize_note(page.as_str())
}

} // verus!
