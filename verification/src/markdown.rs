//! Markdown: from the events of its parser to HTML with anchors on its headings,
//! highlighted code blocks and a table of contents.
use pulldown_cmark::html::push_html;
use pulldown_cmark::CodeBlockKind::{Fenced, Indented};
use pulldown_cmark::Event::{End, Html, Start};
use pulldown_cmark::{Event, HeadingLevel, Options, Parser, Tag, TagEnd};
use vstd::prelude::*;
use vstd::string::*;

use crate::html;
use crate::html::TocItem;
use crate::order;
use crate::text;
use crate::text::copy_text;

verus! {

// ---------------------------------------------------------------------------
// Highlighting.

/// The syntaxes that `syntect` knows.
#[verifier::external_type_specification]
#[verifier::external_body]
pub struct ExSyntaxSet(syntect::parsing::SyntaxSet);

/// The themes that `syntect` knows.
#[verifier::external_type_specification]
#[verifier::external_body]
pub struct ExThemeSet(syntect::highlighting::ThemeSet);

/// A set of syntaxes is the one that comes with `syntect`, for lines that keep
/// their ends.
pub uninterp spec fn bundled_syntaxes(set: syntect::parsing::SyntaxSet) -> bool;

/// A set of themes is the one that comes with `syntect`.
pub uninterp spec fn bundled_themes(set: syntect::highlighting::ThemeSet) -> bool;

/// The names of the themes in a set, in their order.
pub uninterp spec fn theme_names(set: syntect::highlighting::ThemeSet) -> Seq<Seq<char>>;

/// The theme that code is highlighted in.
pub const CODE_THEME: &'static str = "base16-ocean.dark";

/// The themes that `syntect` documents are among these.
pub open spec fn has_documented_themes(names: Seq<Seq<char>>) -> bool {
    &&& names.contains("base16-ocean.dark"@)
    &&& names.contains("base16-eighties.dark"@)
    &&& names.contains("base16-mocha.dark"@)
    &&& names.contains("base16-ocean.light"@)
    &&& names.contains("InspiredGitHub"@)
    &&& names.contains("Solarized (dark)"@)
    &&& names.contains("Solarized (light)"@)
}

/// `SyntaxSet::load_defaults_newlines` gives the set of syntaxes that comes with
/// the crate. Which syntaxes it holds is not said.
pub assume_specification[ syntect::parsing::SyntaxSet::load_defaults_newlines ]() -> (r:
    syntect::parsing::SyntaxSet)
    ensures
        bundled_syntaxes(r),
;

/// `ThemeSet::load_defaults` gives the set of themes that comes with the crate.
/// The themes that its documentation names are in it.
pub assume_specification[ syntect::highlighting::ThemeSet::load_defaults ]() -> (r:
    syntect::highlighting::ThemeSet)
    ensures
        bundled_themes(r),
        has_documented_themes(theme_names(r)),
;

/// A set of syntaxes and a set of themes to highlight code with.
pub struct Highlighter {
    syntaxes: syntect::parsing::SyntaxSet,
    themes: syntect::highlighting::ThemeSet,
}

/// A language token names one of the syntaxes that come with `syntect`.
pub uninterp spec fn syntax_known(token: Seq<char>) -> bool;

/// Code as highlighted HTML, with what comes with `syntect`: the syntax that a
/// token names, or plain text, in the theme with this name.
pub uninterp spec fn highlighted_code(
    code: Seq<char>,
    token: Option<Seq<char>>,
    theme: Seq<char>,
) -> Option<Seq<char>>;

impl Highlighter {
    /// The syntaxes.
    pub closed spec fn syntax_set(&self) -> syntect::parsing::SyntaxSet {
        self.syntaxes
    }

    /// The themes.
    pub closed spec fn theme_set(&self) -> syntect::highlighting::ThemeSet {
        self.themes
    }

    /// The two sets are those that come with `syntect`.
    pub open spec fn wf(&self) -> bool {
        &&& bundled_syntaxes(self.syntax_set())
        &&& bundled_themes(self.theme_set())
        &&& has_documented_themes(theme_names(self.theme_set()))
    }

    /// A highlighter with the syntaxes and the themes that come with `syntect`.
    pub fn new() -> (r: Self)
        ensures
            r.wf(),
    {
        Highlighter {
            syntaxes: syntect::parsing::SyntaxSet::load_defaults_newlines(),
            themes: syntect::highlighting::ThemeSet::load_defaults(),
        }
    }

    /// `SyntaxSet::find_syntax_by_token` finds a syntax by a file extension or
    /// by its name. Whether it finds one in the set that comes with the crate is
    /// [`syntax_known`] of the token.
    #[verifier::external_body]
    fn knows_syntax(&self, token: &str) -> (r: bool)
        requires
            bundled_syntaxes(self.syntax_set()),
        ensures
            r == syntax_known(token@),
    {
        self.syntaxes.find_syntax_by_token(token).is_some()
    }

    /// The map `ThemeSet::themes` has a theme under a name where the name is one
    /// of [`theme_names`].
    #[verifier::external_body]
    fn knows_theme(&self, name: &str) -> (r: bool)
        ensures
            r == theme_names(self.theme_set()).contains(name@),
    {
        self.themes.themes.contains_key(name)
    }

    /// The keys of the map `ThemeSet::themes` are [`theme_names`], in this order.
    #[verifier::external_body]
    fn theme_at(&self, index: usize) -> (r: Option<String>)
        ensures
            text::opt_text(r) == name_at(theme_names(self.theme_set()), index as int),
    {
        self.themes.themes.keys().nth(index).cloned()
    }

    /// `highlighted_html_for_string` writes code as HTML with colours. The
    /// result with the sets that come with the crate is [`highlighted_code`]; it
    /// is none where the token or the theme is not known, or where the code
    /// cannot be highlighted.
    #[verifier::external_body]
    fn highlight(&self, code: &str, token: Option<&str>, theme: &str) -> (r: Option<String>)
        requires
            bundled_syntaxes(self.syntax_set()),
            bundled_themes(self.theme_set()),
        ensures
            text::opt_text(r) == highlighted_code(code@, text::opt_str(token), theme@),
    {
        let syntax = match token {
            Some(token) => self.syntaxes.find_syntax_by_token(token)?,
            None => self.syntaxes.find_syntax_plain_text(),
        };
        let theme = self.themes.themes.get(theme)?;
        syntect::html::highlighted_html_for_string(code, &self.syntaxes, syntax, theme).ok()
    }

    /// The theme that code is highlighted in, as [`chosen_theme`] says.
    fn theme_for_code(&self) -> (r: Option<String>)
        ensures
            text::opt_text(r) == chosen_theme(theme_names(self.theme_set())),
    {
        if self.knows_theme(CODE_THEME) {
            Some(copy_text(CODE_THEME))
        } else {
            self.theme_at(0)
        }
    }
}

/// The name with this index, where there is one.
pub open spec fn name_at(names: Seq<Seq<char>>, index: int) -> Option<Seq<char>> {
    if 0 <= index < names.len() {
        Some(names[index])
    } else {
        None
    }
}

/// The theme that code is highlighted in, out of those with these names:
/// `base16-ocean.dark`, or else the first.
pub open spec fn chosen_theme(names: Seq<Seq<char>>) -> Option<Seq<char>> {
    if names.contains(CODE_THEME@) {
        Some(CODE_THEME@)
    } else {
        name_at(names, 0)
    }
}

/// The language token that code is highlighted with: none for plain text.
pub open spec fn chosen_syntax(language: Seq<char>) -> Option<Seq<char>> {
    if language.len() > 0 && syntax_known(language) {
        Some(language)
    } else {
        None
    }
}

/// Code without colours.
pub open spec fn plain_block(language: Seq<char>, code: Seq<char>) -> Seq<char> {
    let token = html::token_part(language);
    if token.len() == 0 {
        "<pre><code>"@ + html::escaped(code) + "</code></pre>"@
    } else {
        "<pre><code class=\"language-"@ + token + "\">"@ + html::escaped(code) + "</code></pre>"@
    }
}

/// What a code block becomes, given the highlighted code where there is any.
pub open spec fn block_or_plain(
    highlighted: Option<Seq<char>>,
    language: Seq<char>,
    code: Seq<char>,
) -> Seq<char> {
    match highlighted {
        Some(h) => h,
        None => plain_block(language, code),
    }
}

/// What a code block becomes. The theme `base16-ocean.dark` is among those that come
/// with `syntect`.
pub open spec fn code_block(language: Seq<char>, code: Seq<char>) -> Seq<char> {
    block_or_plain(
        highlighted_code(code, chosen_syntax(language), CODE_THEME@),
        language,
        code,
    )
}

/// Computes [`block_or_plain`].
pub fn finish_code_block(highlighted: Option<String>, language: &str, code: &str) -> (r: String)
    ensures
        r@ == block_or_plain(text::opt_text(highlighted), language@, code@),
{
    match highlighted {
        Some(h) => h,
        None => {
            let token = html::sanitize_language_token(language);
            let safe = html::escape_html(code);
            let mut out = if token.as_str().is_empty() {
                copy_text("<pre><code>")
            } else {
                let mut open = copy_text("<pre><code class=\"language-");
                open.append(token.as_str());
                open.append("\">");
                open
            };
            out.append(safe.as_str());
            out.append("</code></pre>");
            out
        },
    }
}

/// Computes [`code_block`].
pub fn highlight_code_block(h: &Highlighter, language: &str, code: &str) -> (r: String)
    requires
        h.wf(),
    ensures
        r@ == code_block(language@, code@),
{
    let theme = h.theme_for_code();
    let highlighted = match &theme {
        Some(theme) => {
            if !language.is_empty() && h.knows_syntax(language) {
                h.highlight(code, Some(language), theme.as_str())
            } else {
                h.highlight(code, None, theme.as_str())
            }
        },
        None => None,
    };
    finish_code_block(highlighted, language, code)
}

// ---------------------------------------------------------------------------
// Events.

/// An event of the Markdown parser: those that the page depends on, and any
/// other.
#[derive(Debug)]
pub enum MdEvent {
    HeadingStart(u8),
    HeadingEnd,
    /// The beginning of a code block, with the info string of a fenced one.
    CodeStart(Option<String>),
    CodeEnd,
    Text(String),
    Code(String),
    SoftBreak,
    HardBreak,
    Other,
}

/// What an event holds.
pub enum MdPart {
    HeadingStart(u8),
    HeadingEnd,
    CodeStart(Option<Seq<char>>),
    CodeEnd,
    Text(Seq<char>),
    Code(Seq<char>),
    SoftBreak,
    HardBreak,
    Other,
}

impl View for MdEvent {
    type V = MdPart;

    open spec fn view(&self) -> MdPart {
        match self {
            MdEvent::HeadingStart(level) => MdPart::HeadingStart(*level),
            MdEvent::HeadingEnd => MdPart::HeadingEnd,
            MdEvent::CodeStart(lang) => MdPart::CodeStart(text::opt_text(*lang)),
            MdEvent::CodeEnd => MdPart::CodeEnd,
            MdEvent::Text(t) => MdPart::Text(t@),
            MdEvent::Code(t) => MdPart::Code(t@),
            MdEvent::SoftBreak => MdPart::SoftBreak,
            MdEvent::HardBreak => MdPart::HardBreak,
            MdEvent::Other => MdPart::Other,
        }
    }
}

/// An event that the page is written from: one of the parser's, by its index,
/// or one that was made.
#[derive(Debug)]
pub enum OutEvent {
    Source(usize),
    Html(String),
    HeadingStart(u8, String),
    HeadingEnd(u8),
}

/// What such an event holds.
pub enum OutPart {
    Source(nat),
    Html(Seq<char>),
    HeadingStart(u8, Seq<char>),
    HeadingEnd(u8),
}

impl View for OutEvent {
    type V = OutPart;

    open spec fn view(&self) -> OutPart {
        match self {
            OutEvent::Source(i) => OutPart::Source(*i as nat),
            OutEvent::Html(t) => OutPart::Html(t@),
            OutEvent::HeadingStart(level, id) => OutPart::HeadingStart(*level, id@),
            OutEvent::HeadingEnd(level) => OutPart::HeadingEnd(*level),
        }
    }
}

/// The extensions of Markdown that pages are written in: tables, footnotes,
/// strikethrough and heading attributes, as the bits of
/// `pulldown_cmark::Options`.
pub const EXTENSIONS: u32 = 78;

/// The events that `pulldown_cmark` finds in a Markdown text, with the
/// extensions that `bits` stands for.
pub uninterp spec fn md_events(markdown: Seq<char>, bits: u32) -> Seq<MdPart>;

/// The HTML that `pulldown_cmark` writes from events, where those given by an
/// index are the events of the Markdown text.
pub uninterp spec fn md_html(markdown: Seq<char>, bits: u32, out: Seq<OutPart>) -> Seq<char>;

/// A heading level that HTML knows.
pub open spec fn level_ok(level: u8) -> bool {
    1 <= level <= 6
}

/// The level of a heading that begins is one that HTML knows.
pub open spec fn part_ok(p: MdPart) -> bool {
    p matches MdPart::HeadingStart(level) ==> level_ok(level)
}

/// The event can be written: it is one of the first `n` of the parser, or its
/// heading level is one that HTML knows.
pub open spec fn out_ok(p: OutPart, n: nat) -> bool {
    match p {
        OutPart::Source(i) => i < n,
        OutPart::Html(_) => true,
        OutPart::HeadingStart(level, _) => level_ok(level),
        OutPart::HeadingEnd(level) => level_ok(level),
    }
}

/// `pulldown_cmark::Parser::new_ext` parses Markdown into events. The result is
/// [`md_events`]; of which events those are, only that a heading level lies
/// between 1 and 6 is said.
#[verifier::external_body]
pub(crate) fn parse_events(markdown: &str, bits: u32) -> (r: Vec<MdEvent>)
    ensures
        order::views(r@) == md_events(markdown@, bits),
        forall|i: int| 0 <= i < r@.len() ==> part_ok((#[trigger] r@[i])@),
{
    let options = Options::from_bits_truncate(bits);
    Parser::new_ext(markdown, options).map(|event| match event {
        Start(Tag::Heading { level, .. }) => MdEvent::HeadingStart(level as u8),
        End(TagEnd::Heading(_)) => MdEvent::HeadingEnd,
        Start(Tag::CodeBlock(Fenced(info))) => MdEvent::CodeStart(Some(info.into_string())),
        Start(Tag::CodeBlock(Indented)) => MdEvent::CodeStart(None),
        End(TagEnd::CodeBlock) => MdEvent::CodeEnd,
        Event::Text(text) => MdEvent::Text(text.into_string()),
        Event::Code(text) => MdEvent::Code(text.into_string()),
        Event::SoftBreak => MdEvent::SoftBreak,
        Event::HardBreak => MdEvent::HardBreak,
        _ => MdEvent::Other,
    }).collect()
}

/// `pulldown_cmark::html::push_html` writes HTML from events. The result is
/// [`md_html`]; how an event is written is not said. Events given by an index
/// are taken from a second parse of the same text.
#[verifier::external_body]
pub(crate) fn write_events(markdown: &str, bits: u32, out: &Vec<OutEvent>) -> (r: String)
    requires
        forall|i: int|
            0 <= i < out@.len() ==> out_ok((#[trigger] out@[i])@, md_events(markdown@, bits).len()),
    ensures
        r@ == md_html(markdown@, bits, order::views(out@)),
{
    let source: Vec<_> = Parser::new_ext(markdown, Options::from_bits_truncate(bits)).collect();
    let level_of = |level: u8| HeadingLevel::try_from(level as usize).unwrap();
    let events = out.iter().map(|event| match event {
        OutEvent::Source(i) => source[*i].clone(),
        OutEvent::Html(html) => Html(html.as_str().into()),
        OutEvent::HeadingStart(level, id) => Start(Tag::Heading {
            level: level_of(*level), id: Some(id.as_str().into()), classes: vec![], attrs: vec![],
        }),
        OutEvent::HeadingEnd(level) => End(TagEnd::Heading(level_of(*level))),
    });
    let mut html = String::new();
    push_html(&mut html, events);
    html
}

// ---------------------------------------------------------------------------
// From the parser's events to those that the page is written from.

/// A heading that has begun: its level, its events, and its text so far.
pub struct OpenHeading {
    pub level: u8,
    pub parts: Seq<OutPart>,
    pub text: Seq<char>,
}

/// A code block that has begun: its language, and its content so far.
pub struct OpenCode {
    pub language: Seq<char>,
    pub content: Seq<char>,
}

/// How far a page has been read.
pub struct MdState {
    pub out: Seq<OutPart>,
    pub toc: Seq<html::TocEntry>,
    pub heading: Option<OpenHeading>,
    pub code: Option<OpenCode>,
}

/// Before the first event.
pub open spec fn md_start() -> MdState {
    MdState { out: Seq::empty(), toc: Seq::empty(), heading: None, code: None }
}

/// The text that an event adds to its heading.
pub open spec fn heading_piece(p: MdPart) -> Seq<char> {
    match p {
        MdPart::Text(t) => t,
        MdPart::Code(t) => t,
        _ => Seq::empty(),
    }
}

/// One event inside a code block.
pub open spec fn code_step(st: MdState, c: OpenCode, p: MdPart) -> MdState {
    match p {
        MdPart::Text(t) => MdState {
            code: Some(OpenCode { content: c.content + t, ..c }),
            ..st
        },
        MdPart::Code(t) => MdState {
            code: Some(OpenCode { content: c.content + t, ..c }),
            ..st
        },
        MdPart::SoftBreak => MdState {
            code: Some(OpenCode { content: c.content.push('\n'), ..c }),
            ..st
        },
        MdPart::HardBreak => MdState {
            code: Some(OpenCode { content: c.content.push('\n'), ..c }),
            ..st
        },
        MdPart::CodeEnd => MdState {
            out: st.out.push(OutPart::Html(code_block(c.language, c.content))),
            code: None,
            ..st
        },
        _ => st,
    }
}

/// The end of the heading `h`: its events between those of a heading with its
/// slug as the anchor, and an entry in the table of contents where it has a
/// text.
pub open spec fn close_heading(st: MdState, h: OpenHeading) -> MdState {
    let title = text::trim(h.text);
    let id = html::slug(title);
    MdState {
        out: st.out.push(OutPart::HeadingStart(h.level, id)) + h.parts + seq![
            OutPart::HeadingEnd(h.level),
        ],
        toc: if title.len() > 0 {
            st.toc.push(html::TocEntry { level: h.level, id, text: title })
        } else {
            st.toc
        },
        heading: None,
        ..st
    }
}

/// The event with index `i` of the parser.
pub open spec fn md_step(st: MdState, i: nat, p: MdPart) -> MdState {
    match st.code {
        Some(c) => code_step(st, c, p),
        None => match p {
            MdPart::HeadingStart(level) => MdState {
                heading: Some(OpenHeading { level, parts: Seq::empty(), text: Seq::empty() }),
                ..st
            },
            MdPart::CodeStart(lang) => MdState {
                code: Some(OpenCode { language: lang.unwrap_or(Seq::empty()), content: Seq::empty() }),
                ..st
            },
            MdPart::HeadingEnd => match st.heading {
                Some(h) => close_heading(st, h),
                None => st,
            },
            _ => match st.heading {
                Some(h) => MdState {
                    heading: Some(
                        OpenHeading {
                            parts: h.parts.push(OutPart::Source(i)),
                            text: h.text + heading_piece(p),
                            ..h
                        },
                    ),
                    ..st
                },
                None => MdState { out: st.out.push(OutPart::Source(i)), ..st },
            },
        },
    }
}

/// After all of `events`.
pub open spec fn md_run(events: Seq<MdPart>) -> MdState
    decreases events.len(),
{
    if events.len() == 0 {
        md_start()
    } else {
        md_step(md_run(events.drop_last()), (events.len() - 1) as nat, events.last())
    }
}

/// A heading that has begun, in executable code.
struct HeadingBuilder {
    level: u8,
    parts: Vec<OutEvent>,
    text: String,
}

/// A code block that has begun, in executable code.
struct CodeBuilder {
    language: String,
    content: String,
}

/// How far a page has been read, in executable code.
struct PageBuilder {
    out: Vec<OutEvent>,
    toc: Vec<TocItem>,
    heading: Option<HeadingBuilder>,
    code: Option<CodeBuilder>,
}

impl View for PageBuilder {
    type V = MdState;

    closed spec fn view(&self) -> MdState {
        MdState {
            out: order::views(self.out@),
            toc: order::views(self.toc@),
            heading: match self.heading {
                Some(h) => Some(
                    OpenHeading { level: h.level, parts: order::views(h.parts@), text: h.text@ },
                ),
                None => None,
            },
            code: match self.code {
                Some(c) => Some(OpenCode { language: c.language@, content: c.content@ }),
                None => None,
            },
        }
    }
}

/// One more value at the end.
proof fn lemma_views_push<T: View>(s: Seq<T>, x: T)
    ensures
        order::views(s.push(x)) == order::views(s).push(x@),
{
    assert(order::views(s.push(x)) =~= order::views(s).push(x@));
}

impl PageBuilder {
    /// One event inside the code block `c`.
    fn code_event(&mut self, c: CodeBuilder, event: &MdEvent, h: &Highlighter)
        requires
            old(self).code is None,
            h.wf(),
        ensures
            final(self)@ == code_step(
                (MdState {
                    code: Some(OpenCode { language: c.language@, content: c.content@ }),
                    ..old(self)@
                }),
                (OpenCode { language: c.language@, content: c.content@ }),
                event@,
            ),
    {
        let mut c = c;
        match event {
            MdEvent::Text(t) => {
                c.content.append(t.as_str());
                self.code = Some(c);
            },
            MdEvent::Code(t) => {
                c.content.append(t.as_str());
                self.code = Some(c);
            },
            MdEvent::SoftBreak => {
                c.content.push('\n');
                self.code = Some(c);
            },
            MdEvent::HardBreak => {
                c.content.push('\n');
                self.code = Some(c);
            },
            MdEvent::CodeEnd => {
                let block = highlight_code_block(h, c.language.as_str(), c.content.as_str());
                let done = OutEvent::Html(block);
                proof {
                    lemma_views_push(self.out@, done);
                }
                self.out.push(done);
            },
            _ => {
                self.code = Some(c);
            },
        }
    }

    /// The end of the heading `h`.
    fn end_heading(&mut self, h: HeadingBuilder)
        requires
            old(self).heading is None,
        ensures
            final(self)@ == close_heading(
                old(self)@,
                (OpenHeading { level: h.level, parts: order::views(h.parts@), text: h.text@ }),
            ),
    {
        let mut parts = h.parts;
        let title = text::trimmed(h.text.as_str());
        let id = html::slugify(title.as_str());
        let ghost before = self.out@;
        let first = OutEvent::HeadingStart(h.level, copy_text(id.as_str()));
        let last = OutEvent::HeadingEnd(h.level);
        self.out.push(first);
        self.out.append(&mut parts);
        self.out.push(last);
        assert(order::views(self.out@) =~= order::views(before).push(first@) + order::views(
            h.parts@,
        ) + seq![last@]);
        if !title.as_str().is_empty() {
            let item = TocItem { level: h.level, id, text: title };
            proof {
                lemma_views_push(self.toc@, item);
            }
            self.toc.push(item);
        }
    }

    /// The event with index `i` of the parser.
    fn event(&mut self, i: usize, event: &MdEvent, h: &Highlighter)
        requires
            h.wf(),
        ensures
            final(self)@ == md_step(old(self)@, i as nat, event@),
    {
        match self.code.take() {
            Some(c) => {
                self.code_event(c, event, h);
            },
            None => {
                match event {
                    MdEvent::HeadingStart(level) => {
                        let parts: Vec<OutEvent> = Vec::new();
                        assert(order::views(parts@) =~= Seq::empty());
                        self.heading = Some(
                            HeadingBuilder { level: *level, parts, text: String::new() },
                        );
                    },
                    MdEvent::CodeStart(lang) => {
                        let language = match lang {
                            Some(l) => copy_text(l.as_str()),
                            None => String::new(),
                        };
                        self.code = Some(CodeBuilder { language, content: String::new() });
                    },
                    MdEvent::HeadingEnd => match self.heading.take() {
                        Some(open) => {
                            self.end_heading(open);
                        },
                        None => {},
                    },
                    _ => {
                        let source = OutEvent::Source(i);
                        match self.heading.take() {
                            Some(open) => {
                                let mut open = open;
                                proof {
                                    lemma_views_push(open.parts@, source);
                                }
                                let ghost t = open.text@;
                                open.parts.push(source);
                                match event {
                                    MdEvent::Text(t) => {
                                        open.text.append(t.as_str());
                                    },
                                    MdEvent::Code(t) => {
                                        open.text.append(t.as_str());
                                    },
                                    _ => {
                                        assert(t + Seq::<char>::empty() =~= t);
                                    },
                                }
                                self.heading = Some(open);
                            },
                            None => {
                                proof {
                                    lemma_views_push(self.out@, source);
                                }
                                self.out.push(source);
                            },
                        }
                    },
                }
            },
        }
    }
}

/// Every event that a page is written from can be written, and every entry of its
/// table of contents has a level that HTML knows.
proof fn lemma_run_ok(events: Seq<MdPart>)
    requires
        forall|i: int| 0 <= i < events.len() ==> part_ok(#[trigger] events[i]),
    ensures
        forall|i: int|
            0 <= i < md_run(events).out.len() ==> out_ok(
                #[trigger] md_run(events).out[i],
                events.len(),
            ),
        md_run(events).heading matches Some(h) ==> level_ok(h.level) && forall|i: int|
            0 <= i < h.parts.len() ==> out_ok(#[trigger] h.parts[i], events.len()),
        forall|k: int|
            0 <= k < md_run(events).toc.len() ==> level_ok((#[trigger] md_run(events).toc[k]).level),
    decreases events.len(),
{
    if events.len() > 0 {
        let rest = events.drop_last();
        assert forall|i: int| 0 <= i < rest.len() implies part_ok(#[trigger] rest[i]) by {
            assert(rest[i] == events[i]);
        }
        lemma_run_ok(rest);
        let a = md_run(rest);
        let p = events.last();
        assert(part_ok(p)) by {
            assert(events[events.len() - 1] == p);
        }
        let b = md_run(events);
        assert(forall|i: int|
            0 <= i < a.out.len() ==> out_ok(#[trigger] a.out[i], events.len()));
        if a.code is None && p is HeadingEnd && a.heading is Some {
            let h = a.heading.unwrap();
            assert(forall|i: int|
                0 <= i < h.parts.len() ==> out_ok(#[trigger] h.parts[i], events.len()));
            let n = a.out.len() as int;
            assert forall|i: int| 0 <= i < b.out.len() implies out_ok(
                #[trigger] b.out[i],
                events.len(),
            ) by {
                if i < n {
                    assert(b.out[i] == a.out[i]);
                } else if i > n && i < n + 1 + h.parts.len() {
                    assert(b.out[i] == h.parts[i - n - 1]);
                }
            }
        } else if b.heading is Some && a.heading is Some {
            let g = a.heading.unwrap();
            let h = b.heading.unwrap();
            assert forall|i: int| 0 <= i < h.parts.len() implies out_ok(
                #[trigger] h.parts[i],
                events.len(),
            ) by {
                if i < g.parts.len() && h.parts.len() >= g.parts.len() {
                    assert(h.parts[i] == g.parts[i]);
                }
            }
        }
    }
}

/// The HTML of a page and its table of contents, given the events that the
/// parser finds in it.
pub open spec fn page_html(markdown: Seq<char>, events: Seq<MdPart>) -> Seq<char> {
    md_html(markdown, EXTENSIONS, md_run(events).out)
}

/// Reads `events`, which gives the events that the page is written from and its
/// table of contents, as [`md_run`] says.
pub fn read_events(h: &Highlighter, events: &Vec<MdEvent>) -> (r: (Vec<OutEvent>, Vec<TocItem>))
    requires
        h.wf(),
    ensures
        order::views(r.0@) == md_run(order::views(events@)).out,
        order::views(r.1@) == md_run(order::views(events@)).toc,
{
    let ghost all = order::views(events@);
    let mut page = PageBuilder { out: Vec::new(), toc: Vec::new(), heading: None, code: None };
    let mut i: usize = 0;
    assert(all.take(0) =~= Seq::empty());
    assert(page@.out =~= Seq::empty());
    assert(page@.toc =~= Seq::empty());
    while i < events.len()
        invariant
            i <= events.len(),
            h.wf(),
            all == order::views(events@),
            page@ == md_run(all.take(i as int)),
        decreases events.len() - i,
    {
        assert(all.take(i + 1).drop_last() =~= all.take(i as int));
        assert(all.take(i + 1).last() == events@[i as int]@);
        page.event(i, &events[i], h);
        i += 1;
    }
    assert(all.take(events.len() as int) =~= all);
    (page.out, page.toc)
}

/// The HTML of a page written in Markdown, and its table of contents.
pub fn markdown_to_html(h: &Highlighter, markdown: &str) -> (r: (String, Vec<TocItem>))
    requires
        h.wf(),
    ensures
        r.0@ == page_html(markdown@, md_events(markdown@, EXTENSIONS)),
        order::views(r.1@) == md_run(md_events(markdown@, EXTENSIONS)).toc,
        forall|k: int| 0 <= k < r.1@.len() ==> 1 <= (#[trigger] r.1@[k]).level <= 6,
{
    let events = parse_events(markdown, EXTENSIONS);
    let ghost all = order::views(events@);
    let (out, toc) = read_events(h, &events);
    proof {
        assert forall|i: int| 0 <= i < all.len() implies part_ok(#[trigger] all[i]) by {
            assert(all[i] == events@[i]@);
        }
        lemma_run_ok(all);
        assert forall|i: int| 0 <= i < out@.len() implies out_ok(
            (#[trigger] out@[i])@,
            all.len(),
        ) by {
            assert(order::views(out@)[i] == out@[i]@);
        }
        assert forall|k: int| 0 <= k < toc@.len() implies 1 <= (#[trigger] toc@[k]).level <= 6 by {
            assert(order::views(toc@)[k] == toc@[k]@);
            assert(level_ok(md_run(all).toc[k].level));
        }
    }
    (write_events(markdown, EXTENSIONS, &out), toc)
}

/// The text of a heading with these events.
pub open spec fn heading_text(body: Seq<MdPart>) -> Seq<char>
    decreases body.len(),
{
    if body.len() == 0 {
        Seq::empty()
    } else {
        heading_text(body.drop_last()) + heading_piece(body.last())
    }
}

/// The event begins no heading and no code block, and ends no heading.
pub open spec fn inside_heading(p: MdPart) -> bool {
    !(p is HeadingStart) && !(p is HeadingEnd) && !(p is CodeStart)
}

/// A heading whose end has not come.
proof fn lemma_open_heading(before: Seq<MdPart>, level: u8, body: Seq<MdPart>)
    requires
        md_run(before).code is None,
        forall|i: int| 0 <= i < body.len() ==> inside_heading(#[trigger] body[i]),
    ensures
        ({
            let st = md_run(before.push(MdPart::HeadingStart(level)) + body);
            &&& st.code is None
            &&& st.toc == md_run(before).toc
            &&& st.heading matches Some(h) && h.level == level && h.text == heading_text(body)
        }),
    decreases body.len(),
{
    let begun = before.push(MdPart::HeadingStart(level));
    assert(begun.drop_last() =~= before);
    if body.len() == 0 {
        assert(begun + body =~= begun);
    } else {
        let front = body.drop_last();
        assert forall|i: int| 0 <= i < front.len() implies inside_heading(#[trigger] front[i]) by {
            assert(front[i] == body[i]);
        }
        lemma_open_heading(before, level, front);
        assert((begun + body).drop_last() =~= begun + front);
        assert((begun + body).last() == body.last());
        assert(inside_heading(body[body.len() - 1]));
    }
}

/// The table of contents has one entry for each heading with a text: the end of
/// such a heading adds its entry, and that of a heading without a text adds none.
pub proof fn law_one_entry_for_each_heading(before: Seq<MdPart>, level: u8, body: Seq<MdPart>)
    requires
        md_run(before).code is None,
        forall|i: int| 0 <= i < body.len() ==> inside_heading(#[trigger] body[i]),
    ensures
        ({
            let title = text::trim(heading_text(body));
            let whole = (before.push(MdPart::HeadingStart(level)) + body).push(MdPart::HeadingEnd);
            md_run(whole).toc == (if title.len() > 0 {
                md_run(before).toc.push(
                    html::TocEntry { level, id: html::slug(title), text: title },
                )
            } else {
                md_run(before).toc
            })
        }),
{
    lemma_open_heading(before, level, body);
    let begun = before.push(MdPart::HeadingStart(level)) + body;
    assert(begun.push(MdPart::HeadingEnd).drop_last() =~= begun);
}

/// Only the end of a heading changes the table of contents.
pub proof fn law_only_headings_have_entries(before: Seq<MdPart>, other: MdPart)
    requires
        !(other is HeadingEnd),
    ensures
        md_run(before.push(other)).toc == md_run(before).toc,
{
    assert(before.push(other).drop_last() =~= before);
}

/// Some event of `out` begins a heading with this level and anchor.
pub open spec fn has_anchor(out: Seq<OutPart>, level: u8, id: Seq<char>) -> bool {
    exists|i: int| 0 <= i < out.len() && #[trigger] out[i] == OutPart::HeadingStart(level, id)
}

/// What is in a page stays in it.
proof fn lemma_anchor_append(a: Seq<OutPart>, b: Seq<OutPart>, level: u8, id: Seq<char>)
    requires
        has_anchor(a, level, id),
    ensures
        has_anchor(a + b, level, id),
{
    let i = choose|i: int| 0 <= i < a.len() && #[trigger] a[i] == OutPart::HeadingStart(level, id);
    assert((a + b)[i] == OutPart::HeadingStart(level, id));
}

/// Every entry of the table of contents links to a heading of the page: one with
/// its level, and with its id, the slug of its text, as the anchor.
pub proof fn law_toc_links_to_headings(events: Seq<MdPart>)
    ensures
        forall|k: int|
            0 <= k < md_run(events).toc.len() ==> {
                let e = #[trigger] md_run(events).toc[k];
                e.id == html::slug(e.text) && e.text.len() > 0 && has_anchor(
                    md_run(events).out,
                    e.level,
                    e.id,
                )
            },
    decreases events.len(),
{
    if events.len() > 0 {
        let a = md_run(events.drop_last());
        let b = md_run(events);
        law_toc_links_to_headings(events.drop_last());
        let tail = b.out.skip(a.out.len() as int);
        assert(b.out =~= a.out + tail);
        assert forall|k: int| 0 <= k < b.toc.len() implies {
            let e = #[trigger] b.toc[k];
            e.id == html::slug(e.text) && e.text.len() > 0 && has_anchor(b.out, e.level, e.id)
        } by {
            let e = b.toc[k];
            if k < a.toc.len() {
                assert(a.toc[k] == e);
                lemma_anchor_append(a.out, tail, e.level, e.id);
            } else {
                let n = a.out.len() as int;
                assert(b.out[n] == OutPart::HeadingStart(e.level, e.id));
            }
        }
    }
}

// ---------------------------------------------------------------------------
// What becomes of each event.

/// Outside headings and code blocks the page is written from the very events of the
/// parser, each at its place: text, inline code, line breaks and everything else
/// that begins or ends neither is kept, and nothing that came before changes.
pub proof fn law_other_events_are_kept(before: Seq<MdPart>, p: MdPart)
    requires
        md_run(before).code is None,
        md_run(before).heading is None,
        p is Text || p is Code || p is SoftBreak || p is HardBreak || p is Other,
    ensures
        md_run(before.push(p)).out == md_run(before).out.push(OutPart::Source(before.len())),
        md_run(before.push(p)).code is None,
        md_run(before.push(p)).heading is None,
{
    assert(before.push(p).drop_last() =~= before);
}

/// A page without headings and code blocks is written from all events of the
/// parser, in order.
pub proof fn law_plain_pages_keep_every_event(events: Seq<MdPart>)
    requires
        forall|i: int|
            0 <= i < events.len() ==> {
                let p = #[trigger] events[i];
                p is Text || p is Code || p is SoftBreak || p is HardBreak || p is Other
            },
    ensures
        md_run(events).out == Seq::new(events.len(), |i: int| OutPart::Source(i as nat)),
        md_run(events).toc.len() == 0,
        md_run(events).code is None,
        md_run(events).heading is None,
    decreases events.len(),
{
    if events.len() > 0 {
        let front = events.drop_last();
        assert forall|i: int| 0 <= i < front.len() implies {
            let p = #[trigger] front[i];
            p is Text || p is Code || p is SoftBreak || p is HardBreak || p is Other
        } by {
            assert(front[i] == events[i]);
        }
        law_plain_pages_keep_every_event(front);
        assert(front.push(events[events.len() - 1]) =~= events);
        law_other_events_are_kept(front, events[events.len() - 1]);
    }
    assert(md_run(events).out =~= Seq::new(events.len(), |i: int| OutPart::Source(i as nat)));
}

/// The text of a heading is that of its texts and inline codes, one after the
/// other.
pub proof fn law_heading_text_is_all_its_text(body: Seq<MdPart>)
    ensures
        heading_text(body) == Seq::new(
            body.len(),
            |i: int|
                match body[i] {
                    MdPart::Text(t) => t,
                    MdPart::Code(t) => t,
                    _ => Seq::empty(),
                },
        ).flatten(),
    decreases body.len(),
{
    let pieces = Seq::new(
        body.len(),
        |i: int|
            match body[i] {
                MdPart::Text(t) => t,
                MdPart::Code(t) => t,
                _ => Seq::empty(),
            },
    );
    pieces.lemma_flatten_and_flatten_alt_are_equivalent();
    if body.len() > 0 {
        let front = body.drop_last();
        law_heading_text_is_all_its_text(front);
        let rest = Seq::new(
            front.len(),
            |i: int|
                match front[i] {
                    MdPart::Text(t) => t,
                    MdPart::Code(t) => t,
                    _ => Seq::empty(),
                },
        );
        rest.lemma_flatten_and_flatten_alt_are_equivalent();
        assert(pieces.drop_last() =~= rest);
    }
}

/// The events of a heading whose end has not come.
proof fn lemma_open_heading_parts(before: Seq<MdPart>, level: u8, body: Seq<MdPart>)
    requires
        md_run(before).code is None,
        forall|i: int| 0 <= i < body.len() ==> inside_heading(#[trigger] body[i]),
    ensures
        ({
            let st = md_run(before.push(MdPart::HeadingStart(level)) + body);
            &&& st.out == md_run(before).out
            &&& st.heading matches Some(h) && h.parts == Seq::new(
                body.len(),
                |k: int| OutPart::Source((before.len() + 1 + k) as nat),
            )
        }),
    decreases body.len(),
{
    let begun = before.push(MdPart::HeadingStart(level));
    assert(begun.drop_last() =~= before);
    let parts = Seq::new(
        body.len(),
        |k: int| OutPart::Source((before.len() + 1 + k) as nat),
    );
    if body.len() == 0 {
        assert(begun + body =~= begun);
        assert(md_run(begun).heading.unwrap().parts =~= parts);
    } else {
        let front = body.drop_last();
        assert forall|i: int| 0 <= i < front.len() implies inside_heading(#[trigger] front[i]) by {
            assert(front[i] == body[i]);
        }
        lemma_open_heading(before, level, front);
        lemma_open_heading_parts(before, level, front);
        assert((begun + body).drop_last() =~= begun + front);
        assert((begun + body).last() == body.last());
        assert(inside_heading(body[body.len() - 1]));
        assert(md_run(begun + body).heading.unwrap().parts =~= parts);
    }
}

/// A heading is written with its level and, as its anchor, the slug of its text;
/// between its beginning and its end stand all its events, in order. What came
/// before stays.
pub proof fn law_heading_is_written(before: Seq<MdPart>, level: u8, body: Seq<MdPart>)
    requires
        md_run(before).code is None,
        forall|i: int| 0 <= i < body.len() ==> inside_heading(#[trigger] body[i]),
    ensures
        ({
            let whole = (before.push(MdPart::HeadingStart(level)) + body).push(MdPart::HeadingEnd);
            let st = md_run(whole);
            &&& st.out == md_run(before).out + seq![
                OutPart::HeadingStart(level, html::slug(text::trim(heading_text(body)))),
            ] + Seq::new(
                body.len(),
                |k: int| OutPart::Source((before.len() + 1 + k) as nat),
            ) + seq![OutPart::HeadingEnd(level)]
            &&& st.heading is None
            &&& st.code is None
        }),
{
    lemma_open_heading(before, level, body);
    lemma_open_heading_parts(before, level, body);
    let begun = before.push(MdPart::HeadingStart(level)) + body;
    let whole = begun.push(MdPart::HeadingEnd);
    assert(whole.drop_last() =~= begun);
    assert(md_run(whole).out =~= md_run(before).out + seq![
        OutPart::HeadingStart(level, html::slug(text::trim(heading_text(body)))),
    ] + Seq::new(body.len(), |k: int| OutPart::Source((before.len() + 1 + k) as nat)) + seq![
        OutPart::HeadingEnd(level),
    ]);
}

/// The event neither ends a code block nor begins another heading or block.
pub open spec fn inside_code(p: MdPart) -> bool {
    p is Text || p is Code || p is SoftBreak || p is HardBreak
}

/// A code block whose end has not come.
proof fn lemma_open_code(before: Seq<MdPart>, info: Option<Seq<char>>, body: Seq<MdPart>)
    requires
        md_run(before).code is None,
        forall|i: int| 0 <= i < body.len() ==> inside_code(#[trigger] body[i]),
    ensures
        ({
            let st = md_run(before.push(MdPart::CodeStart(info)) + body);
            &&& st.out == md_run(before).out
            &&& st.toc == md_run(before).toc
            &&& st.heading == md_run(before).heading
            &&& st.code matches Some(c) && c.content == Seq::new(
                body.len(),
                |i: int|
                    match body[i] {
                        MdPart::Text(t) => t,
                        MdPart::Code(t) => t,
                        _ => seq!['\n'],
                    },
            ).flatten() && (info matches Some(l) ==> c.language == l) && (info is None
                ==> c.language.len() == 0)
        }),
    decreases body.len(),
{
    let begun = before.push(MdPart::CodeStart(info));
    assert(begun.drop_last() =~= before);
    let pieces = Seq::new(
        body.len(),
        |i: int|
            match body[i] {
                MdPart::Text(t) => t,
                MdPart::Code(t) => t,
                _ => seq!['\n'],
            },
    );
    pieces.lemma_flatten_and_flatten_alt_are_equivalent();
    if body.len() == 0 {
        assert(begun + body =~= begun);
    } else {
        let front = body.drop_last();
        assert forall|i: int| 0 <= i < front.len() implies inside_code(#[trigger] front[i]) by {
            assert(front[i] == body[i]);
        }
        lemma_open_code(before, info, front);
        let rest = Seq::new(
            front.len(),
            |i: int|
                match front[i] {
                    MdPart::Text(t) => t,
                    MdPart::Code(t) => t,
                    _ => seq!['\n'],
                },
        );
        rest.lemma_flatten_and_flatten_alt_are_equivalent();
        assert(pieces.drop_last() =~= rest);
        assert((begun + body).drop_last() =~= begun + front);
        assert((begun + body).last() == body.last());
        assert(inside_code(body[body.len() - 1]));
        let c = md_run(begun + body).code.unwrap();
        assert(c.content =~= pieces.flatten_alt());
    }
}

/// A code block is written as one piece of HTML: the block of its language with all
/// its text, one after the other, and a line break for every break. What came
/// before stays, and so does the table of contents.
pub proof fn law_code_block_is_written(
    before: Seq<MdPart>,
    language: Seq<char>,
    body: Seq<MdPart>,
)
    requires
        md_run(before).code is None,
        forall|i: int| 0 <= i < body.len() ==> inside_code(#[trigger] body[i]),
    ensures
        ({
            let fenced = (before.push(MdPart::CodeStart(Some(language))) + body).push(
                MdPart::CodeEnd,
            );
            let indented = (before.push(MdPart::CodeStart(None)) + body).push(MdPart::CodeEnd);
            let code = Seq::new(
                body.len(),
                |i: int|
                    match body[i] {
                        MdPart::Text(t) => t,
                        MdPart::Code(t) => t,
                        _ => seq!['\n'],
                    },
            ).flatten();
            &&& md_run(fenced).out == md_run(before).out.push(
                OutPart::Html(code_block(language, code)),
            )
            &&& md_run(indented).out == md_run(before).out.push(
                OutPart::Html(code_block(Seq::empty(), code)),
            )
            &&& md_run(fenced).code is None
            &&& md_run(indented).code is None
            &&& md_run(fenced).toc == md_run(before).toc
            &&& md_run(fenced).heading == md_run(before).heading
        }),
{
    lemma_open_code(before, Some(language), body);
    lemma_open_code(before, None, body);
    let a = before.push(MdPart::CodeStart(Some(language))) + body;
    let b = before.push(MdPart::CodeStart(None)) + body;
    assert(a.push(MdPart::CodeEnd).drop_last() =~= a);
    assert(b.push(MdPart::CodeEnd).drop_last() =~= b);
    assert(md_run(b).code.unwrap().language =~= Seq::empty());
}

/// Code is shown highlighted wherever it can be: with the syntax of its language
/// where that is known, as plain text otherwise, in the dark theme. Where it cannot
/// be, all of it is shown, escaped, between the marks of a code block; a usable
/// language is named there.
pub proof fn law_code_is_shown(language: Seq<char>, code: Seq<char>)
    ensures
        language.len() > 0 && syntax_known(language) ==> (highlighted_code(
            code,
            Some(language),
            "base16-ocean.dark"@,
        ) matches Some(h) ==> code_block(language, code) == h),
        language.len() == 0 || !syntax_known(language) ==> (highlighted_code(
            code,
            None,
            "base16-ocean.dark"@,
        ) matches Some(h) ==> code_block(language, code) == h),
        (forall|i: int| 0 <= i < language.len() ==> !text::is_token_char(#[trigger] language[i]))
            ==> block_or_plain(None, language, code) == "<pre><code>"@ + html::escaped(code)
            + "</code></pre>"@,
        language.len() > 0 && (forall|i: int|
            0 <= i < language.len() ==> text::is_token_char(#[trigger] language[i]))
            ==> block_or_plain(None, language, code) == "<pre><code class=\"language-"@ + language
            + "\">"@ + html::escaped(code) + "</code></pre>"@,
{
    html::law_token_part(language, Seq::empty(), ' ');
}

/// Pages are written in Markdown with tables, footnotes, strikethrough and heading
/// attributes, and with no other extension.
pub proof fn law_four_extensions()
    ensures
        EXTENSIONS & 2 == 2,
        EXTENSIONS & 4 == 4,
        EXTENSIONS & 8 == 8,
        EXTENSIONS & 64 == 64,
        EXTENSIONS == 2 + 4 + 8 + 64,
{
    assert(78u32 & 2 == 2 && 78u32 & 4 == 4 && 78u32 & 8 == 8 && 78u32 & 64 == 64) by (bit_vector);
}

} // verus!
