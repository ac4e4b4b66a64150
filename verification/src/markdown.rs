//! Markdown to HTML: fenced code blocks are highlighted, `mermaid` blocks are
//! drawn as SVG diagrams, everything else goes through the Markdown renderer.
use vstd::prelude::*;
use vstd::utf8::{decode_utf8, valid_utf8};
use crate::model::{AppError, Paste};
use crate::text::{push_str, string_of};
use pulldown_cmark::{CodeBlockKind, Event, Tag, TagEnd};

verus! {

// ---------------------------------------------------------------------------
// Outside types.
// ---------------------------------------------------------------------------

#[verifier::external_type_specification]
#[verifier::external_body]
pub struct ExSyntaxSet(syntect::parsing::SyntaxSet);

#[verifier::external_type_specification]
#[verifier::external_body]
pub struct ExSyntaxReference(syntect::parsing::SyntaxReference);

#[verifier::external_type_specification]
#[verifier::external_body]
pub struct ExThemeSet(syntect::highlighting::ThemeSet);

#[verifier::external_type_specification]
#[verifier::external_body]
pub struct ExTheme(syntect::highlighting::Theme);

// ---------------------------------------------------------------------------
// What the code-block logic reads of a Markdown event.
// ---------------------------------------------------------------------------

/// The Markdown extensions that pastes are parsed with, as `pulldown_cmark::Options`
/// flags: tables (`1 << 1`), strikethrough (`1 << 3`), task lists (`1 << 4`) and
/// smart punctuation (`1 << 5`).
pub const MARKDOWN_OPTIONS: u32 = 2 + 8 + 16 + 32;

/// What the code-block logic needs to know of a Markdown event.
pub enum MdEventKind {
    /// The start of a fenced code block, with its info string (the language).
    FencedCodeStart(String),
    /// A text node.
    Text(String),
    /// The end of a code block (fenced or indented).
    CodeBlockEnd,
    /// Any other event.
    Other,
}

/// `MdEventKind` as plain values.
pub enum KindView {
    FencedCodeStart(Seq<char>),
    Text(Seq<char>),
    CodeBlockEnd,
    Other,
}

impl MdEventKind {
    pub open spec fn view_kind(&self) -> KindView {
        match self {
            MdEventKind::FencedCodeStart(l) => KindView::FencedCodeStart(l@),
            MdEventKind::Text(t) => KindView::Text(t@),
            MdEventKind::CodeBlockEnd => KindView::CodeBlockEnd,
            MdEventKind::Other => KindView::Other,
        }
    }
}

/// A list of event kinds as plain values.
pub open spec fn kinds_view(ks: Seq<MdEventKind>) -> Seq<KindView> {
    ks.map_values(|k: MdEventKind| k.view_kind())
}

/// What becomes of one Markdown event.
pub enum MdStep {
    /// The event is rendered as it is.
    Keep,
    /// The event is left out.
    Drop,
    /// A `mermaid` block ends here: its source is drawn as a diagram.
    Mermaid(String),
    /// A fenced code block ends here: its source is highlighted for its language.
    Highlight(String, String),
}

/// `MdStep` as plain values.
pub enum PlanStep {
    Keep,
    Drop,
    Mermaid(Seq<char>),
    Highlight(Seq<char>, Seq<char>),
}

impl MdStep {
    pub open spec fn view_step(&self) -> PlanStep {
        match self {
            MdStep::Keep => PlanStep::Keep,
            MdStep::Drop => PlanStep::Drop,
            MdStep::Mermaid(code) => PlanStep::Mermaid(code@),
            MdStep::Highlight(lang, code) => PlanStep::Highlight(lang@, code@),
        }
    }
}

/// A list of steps as plain values.
pub open spec fn steps_view(ss: Seq<MdStep>) -> Seq<PlanStep> {
    ss.map_values(|s: MdStep| s.view_step())
}

/// Where the walk over the events stands: inside a fenced code block, inside a
/// `mermaid` block, the current block's language, and the source gathered so far.
pub struct MdState {
    pub in_code_block: bool,
    pub in_mermaid: bool,
    pub lang: Seq<char>,
    pub code: Seq<char>,
}

pub open spec fn initial_md_state() -> MdState {
    MdState { in_code_block: false, in_mermaid: false, lang: Seq::empty(), code: Seq::empty() }
}

/// The info string that marks a diagram.
pub open spec fn mermaid_lang() -> Seq<char> {
    seq!['m', 'e', 'r', 'm', 'a', 'i', 'd']
}

/// One step of the walk: the state after the event `k`, and what becomes of it.
pub open spec fn md_step(st: MdState, k: KindView) -> (MdState, PlanStep) {
    match k {
        KindView::FencedCodeStart(lang) => if lang == mermaid_lang() {
            (MdState { in_mermaid: true, code: Seq::empty(), ..st }, PlanStep::Drop)
        } else {
            (MdState { in_code_block: true, lang: lang, code: Seq::empty(), ..st }, PlanStep::Drop)
        },
        KindView::Text(t) => if st.in_code_block || st.in_mermaid {
            (MdState { code: st.code + t, ..st }, PlanStep::Drop)
        } else {
            (st, PlanStep::Keep)
        },
        KindView::CodeBlockEnd => if st.in_mermaid {
            (MdState { in_mermaid: false, ..st }, PlanStep::Mermaid(st.code))
        } else if st.in_code_block {
            (MdState { in_code_block: false, ..st }, PlanStep::Highlight(st.lang, st.code))
        } else {
            (st, PlanStep::Drop)
        },
        KindView::Other => if !st.in_code_block {
            (st, PlanStep::Keep)
        } else {
            (st, PlanStep::Drop)
        },
    }
}

/// The walk over the events `ks` from the start: the state it ends in and
/// what becomes of each event.
pub open spec fn md_plan(ks: Seq<KindView>) -> (MdState, Seq<PlanStep>)
    decreases ks.len(),
{
    if ks.len() == 0 {
        (initial_md_state(), Seq::empty())
    } else {
        let (st, steps) = md_plan(ks.drop_last());
        let (st2, step) = md_step(st, ks.last());
        (st2, steps.push(step))
    }
}

fn is_mermaid(lang: &String) -> (b: bool)
    ensures
        b == (lang@ == mermaid_lang()),
{
    let v = crate::text::chars_of(lang.as_str());
    let m: Vec<char> = vec!['m', 'e', 'r', 'm', 'a', 'i', 'd'];
    assert(m@ =~= mermaid_lang());
    if v.len() != m.len() {
        return false;
    }
    let mut i: usize = 0;
    while i < m.len()
        invariant
            v@ == lang@,
            m@ == mermaid_lang(),
            v@.len() == m@.len(),
            i <= m@.len(),
            forall|j: int| 0 <= j < i ==> v@[j] == m@[j],
        decreases m.len() - i,
    {
        if v[i] != m[i] {
            assert(v@[i as int] != m@[i as int]);
            assert(lang@ != mermaid_lang());
            return false;
        }
        i += 1;
    }
    assert(v@ =~= m@);
    true
}

fn copy_string(s: &String) -> (r: String)
    ensures
        r@ == s@,
{
    s.clone()
}

/// The walk gives one step for each event.
proof fn lemma_plan_len(ks: Seq<KindView>)
    ensures
        md_plan(ks).1.len() == ks.len(),
    decreases ks.len(),
{
    if ks.len() > 0 {
        lemma_plan_len(ks.drop_last());
    }
}

/// Decides what becomes of each Markdown event: the events inside a fenced code
/// block are gathered into its source and left out, the end of the block stands
/// for the highlighted block (or the diagram, for a `mermaid` block), and all
/// other events are kept, except inside a fenced non-`mermaid` block.
pub fn plan_code_blocks(kinds: &Vec<MdEventKind>) -> (steps: Vec<MdStep>)
    ensures
        steps_view(steps@) == md_plan(kinds_view(kinds@)).1,
{
    let ghost kv = kinds_view(kinds@);
    let mut steps: Vec<MdStep> = Vec::new();
    let mut in_code_block = false;
    let mut in_mermaid = false;
    let mut lang = String::new();
    let mut code = String::new();
    let mut i: usize = 0;
    while i < kinds.len()
        invariant
            i <= kinds@.len(),
            kv == kinds_view(kinds@),
            steps@.len() == i,
            ({
                let (st, plan) = md_plan(kv.take(i as int));
                &&& st.in_code_block == in_code_block
                &&& st.in_mermaid == in_mermaid
                &&& st.lang == lang@
                &&& st.code == code@
                &&& plan.len() == i
                &&& forall|j: int| 0 <= j < i ==> #[trigger] steps@[j].view_step() == plan[j]
            }),
        decreases kinds.len() - i,
    {
        assert(kv.take(i + 1).drop_last() =~= kv.take(i as int));
        assert(kv.take(i + 1).last() == kinds@[i as int].view_kind());
        let ghost prev = steps@;
        match &kinds[i] {
            MdEventKind::FencedCodeStart(l) => {
                if is_mermaid(l) {
                    in_mermaid = true;
                    code = String::new();
                } else {
                    in_code_block = true;
                    lang = copy_string(l);
                    code = String::new();
                }
                steps.push(MdStep::Drop);
            },
            MdEventKind::Text(t) => {
                if in_code_block || in_mermaid {
                    code.append(t.as_str());
                    steps.push(MdStep::Drop);
                } else {
                    steps.push(MdStep::Keep);
                }
            },
            MdEventKind::CodeBlockEnd => {
                if in_mermaid {
                    in_mermaid = false;
                    steps.push(MdStep::Mermaid(copy_string(&code)));
                } else if in_code_block {
                    in_code_block = false;
                    steps.push(MdStep::Highlight(copy_string(&lang), copy_string(&code)));
                } else {
                    steps.push(MdStep::Drop);
                }
            },
            MdEventKind::Other => {
                if !in_code_block {
                    steps.push(MdStep::Keep);
                } else {
                    steps.push(MdStep::Drop);
                }
            },
        }
        proof {
            assert forall|j: int| 0 <= j < i implies #[trigger] steps@[j] == prev[j] by {}
        }
        i += 1;
    }
    assert(kv.take(kv.len() as int) =~= kv);
    assert(steps_view(steps@) =~= md_plan(kv).1);
    steps
}

// ---------------------------------------------------------------------------
// The events that are rendered.
// ---------------------------------------------------------------------------

/// One event of the rendered document: the parsed event at an index, or an
/// HTML event that holds a text.
pub enum MdOut {
    Event(usize),
    Html(String),
}

/// `MdOut` as plain values.
pub enum OutView {
    Event(int),
    Html(Seq<char>),
}

impl MdOut {
    pub open spec fn view_out(&self) -> OutView {
        match self {
            MdOut::Event(i) => OutView::Event(*i as int),
            MdOut::Html(h) => OutView::Html(h@),
        }
    }
}

/// A list of rendered events as plain values.
pub open spec fn outs_view(os: Seq<MdOut>) -> Seq<OutView> {
    os.map_values(|o: MdOut| o.view_out())
}

/// A step that is replaced by a block of HTML: a diagram or a highlighted block.
pub open spec fn is_block(s: PlanStep) -> bool {
    s is Mermaid || s is Highlight
}

/// The steps of `steps` that are replaced by blocks, in order.
pub open spec fn block_steps(steps: Seq<PlanStep>) -> Seq<PlanStep>
    decreases steps.len(),
{
    if steps.len() == 0 {
        Seq::empty()
    } else if is_block(steps.last()) {
        block_steps(steps.drop_last()).push(steps.last())
    } else {
        block_steps(steps.drop_last())
    }
}

/// The events that are rendered for the plan `steps`, where `blocks` holds the
/// HTML of the replaced steps in order: a kept event as it was parsed, a dropped
/// one not at all, a replaced one as its block.
pub open spec fn md_output(steps: Seq<PlanStep>, blocks: Seq<Seq<char>>) -> Seq<OutView>
    decreases steps.len(),
{
    if steps.len() == 0 {
        Seq::empty()
    } else {
        let prev = md_output(steps.drop_last(), blocks);
        match steps.last() {
            PlanStep::Keep => prev.push(OutView::Event(steps.len() - 1)),
            PlanStep::Drop => prev,
            _ => prev.push(OutView::Html(blocks[block_steps(steps.drop_last()).len() as int])),
        }
    }
}

/// The events of `md_output` that refer to parsed events all refer to one of
/// the first `n` of them.
pub open spec fn events_below(out: Seq<OutView>, n: int) -> bool {
    forall|i: int| 0 <= i < out.len() ==> (#[trigger] out[i] matches OutView::Event(k) ==> 0 <= k < n)
}

/// The events of the rendered document for the plan `steps` and the blocks
/// `blocks` (one for each replaced step, in order).
pub fn md_output_events(steps: &Vec<MdStep>, blocks: &Vec<String>) -> (out: Vec<MdOut>)
    requires
        blocks@.len() == block_steps(steps_view(steps@)).len(),
    ensures
        outs_view(out@) == md_output(steps_view(steps@), blocks@.map_values(|b: String| b@)),
        events_below(outs_view(out@), steps@.len() as int),
{
    let ghost sv = steps_view(steps@);
    let ghost bv = blocks@.map_values(|b: String| b@);
    let mut out: Vec<MdOut> = Vec::new();
    let nb = blocks.len();
    let mut j: usize = 0;
    let mut i: usize = 0;
    while i < steps.len()
        invariant
            i <= steps@.len(),
            nb == blocks@.len(),
            sv == steps_view(steps@),
            bv == blocks@.map_values(|b: String| b@),
            blocks@.len() == block_steps(sv).len(),
            j == block_steps(sv.take(i as int)).len(),
            j <= block_steps(sv).len(),
            outs_view(out@) == md_output(sv.take(i as int), bv),
            events_below(outs_view(out@), i as int),
        decreases steps.len() - i,
    {
        let ghost t = sv.take(i as int);
        assert(sv.take(i + 1).drop_last() =~= t);
        assert(sv.take(i + 1).last() == steps@[i as int].view_step());
        proof {
            lemma_block_steps_prefix(sv, i as int + 1);
        }
        match &steps[i] {
            MdStep::Keep => {
                out.push(MdOut::Event(i));
            },
            MdStep::Drop => {},
            MdStep::Mermaid(_) => {
                assert(block_steps(sv.take(i + 1)) == block_steps(t).push(sv[i as int]));
                out.push(MdOut::Html(copy_string(&blocks[j])));
                j += 1;
            },
            MdStep::Highlight(_, _) => {
                assert(block_steps(sv.take(i + 1)) == block_steps(t).push(sv[i as int]));
                out.push(MdOut::Html(copy_string(&blocks[j])));
                j += 1;
            },
        }
        assert(outs_view(out@) =~= md_output(sv.take(i + 1), bv));
        i += 1;
    }
    assert(sv.take(sv.len() as int) =~= sv);
    out
}

/// A prefix of a plan has no more replaced steps than the whole plan.
proof fn lemma_block_steps_prefix(s: Seq<PlanStep>, n: int)
    requires
        0 <= n <= s.len(),
    ensures
        block_steps(s.take(n)).len() <= block_steps(s).len(),
    decreases s.len() - n,
{
    if n < s.len() {
        lemma_block_steps_prefix(s, n + 1);
        assert(s.take(n + 1).drop_last() =~= s.take(n));
    } else {
        assert(s.take(n) =~= s);
    }
}

// ---------------------------------------------------------------------------
// Calls into the Markdown parser, the highlighter and the diagram renderer.
// ---------------------------------------------------------------------------

/// The text of the error that `String::from_utf8` reports for `bytes`.
pub uninterp spec fn utf8_error_text(bytes: Seq<u8>) -> Seq<char>;

/// Trusted: `String::from_utf8` accepts exactly the valid UTF-8 byte strings
/// and then holds the characters they encode, as std documents; on other
/// bytes the error's `Display` text is returned, named `utf8_error_text`.
#[verifier::external_body]
fn decode_utf8_string(bytes: Vec<u8>) -> (r: Result<String, String>)
    ensures
        r is Ok <==> valid_utf8(bytes@),
        r matches Ok(s) ==> s@ == decode_utf8(bytes@),
        r matches Err(m) ==> m@ == utf8_error_text(bytes@),
{
    String::from_utf8(bytes).map_err(|e| e.to_string())
}

/// The kinds of the events that pulldown-cmark parses `text` into, with the
/// option flags `options`.
pub uninterp spec fn md_event_kinds(text: Seq<char>, options: u32) -> Seq<KindView>;

/// The HTML that `pulldown_cmark::html::push_html` writes for the events `out`,
/// where a parsed event is the event at that index of the parse of `text` with
/// the option flags `options`.
pub uninterp spec fn md_html(text: Seq<char>, options: u32, out: Seq<OutView>) -> Seq<char>;

/// Trusted: `pulldown_cmark::Parser::new_ext` over `text` with the flags
/// `options` (`Options::from_bits_truncate`), each event told apart by its
/// variant, one arm each, with the info string of a fenced code block and the
/// text of a text node copied out. The parse is a function of the text and the
/// flags, named `md_event_kinds`. That the parser returns on every text is
/// taken from the crate: its source guards its tree with `unwrap` and
/// `expect`, which is not examined here.
#[verifier::external_body]
fn md_event_kinds_of(text: &str, options: u32) -> (r: Vec<MdEventKind>)
    ensures
        kinds_view(r@) == md_event_kinds(text@, options),
{
    let mut kinds: Vec<MdEventKind> = Vec::new();
    for e in pulldown_cmark::Parser::new_ext(text, pulldown_cmark::Options::from_bits_truncate(options)) {
        kinds.push(match e {
            Event::Start(Tag::CodeBlock(CodeBlockKind::Fenced(lang))) => MdEventKind::FencedCodeStart(lang.to_string()),
            Event::Text(t) => MdEventKind::Text(t.to_string()),
            Event::End(TagEnd::CodeBlock) => MdEventKind::CodeBlockEnd,
            _ => MdEventKind::Other,
        });
    }
    kinds
}

/// Trusted: parses `text` with `Parser::new_ext` as `md_event_kinds_of` does,
/// lists the events that `out` asks for (the parsed event at an index, or
/// `Event::Html` holding a text), and renders them with
/// `pulldown_cmark::html::push_html` into an empty string. The HTML is a
/// function of the text, the flags and `out`, named `md_html`. The indices
/// must lie among the parsed events.
#[verifier::external_body]
fn md_render(text: &str, options: u32, out: &Vec<MdOut>) -> (r: String)
    requires
        events_below(outs_view(out@), md_event_kinds(text@, options).len() as int),
    ensures
        r@ == md_html(text@, options, outs_view(out@)),
{
    let parsed: Vec<Event> = pulldown_cmark::Parser::new_ext(text, pulldown_cmark::Options::from_bits_truncate(options)).collect();
    let mut events: Vec<Event> = Vec::new();
    for o in out.iter() {
        events.push(match o {
            MdOut::Event(i) => parsed[*i].clone(),
            MdOut::Html(h) => Event::Html(h.clone().into()),
        });
    }
    let mut html = String::new();
    pulldown_cmark::html::push_html(&mut html, events.into_iter());
    html
}

/// The names of the syntaxes in a syntax set.
pub uninterp spec fn syntax_names(set: syntect::parsing::SyntaxSet) -> Set<Seq<char>>;

/// The syntax `syntax` is one of the syntaxes of the set `set`.
pub uninterp spec fn syntax_from(set: syntect::parsing::SyntaxSet, syntax: syntect::parsing::SyntaxReference) -> bool;

/// The name of the syntax for text without highlighting.
pub open spec fn plain_text_name() -> Seq<char> {
    "Plain Text"@
}

/// Trusted: `syntect::parsing::SyntaxSet::load_defaults_newlines`. The default
/// syntaxes include "Plain Text" (it is in the crate's default dump, and
/// `find_syntax_plain_text` documents that it should always be present).
#[verifier::external_body]
fn load_syntax_set() -> (r: syntect::parsing::SyntaxSet)
    ensures
        syntax_names(r).contains(plain_text_name()),
{
    syntect::parsing::SyntaxSet::load_defaults_newlines()
}

/// The names of the themes in a theme set: the keys of its `themes` map.
pub uninterp spec fn theme_names(set: syntect::highlighting::ThemeSet) -> Set<Seq<char>>;

/// The themes that syntect ships, by name.
pub open spec fn default_theme_names() -> Set<Seq<char>> {
    set![
        "base16-ocean.dark"@,
        "base16-eighties.dark"@,
        "base16-mocha.dark"@,
        "base16-ocean.light"@,
        "InspiredGitHub"@,
        "Solarized (dark)"@,
        "Solarized (light)"@,
    ]
}

/// Trusted: `syntect::highlighting::ThemeSet::load_defaults`; its documentation
/// lists the keys of the loaded `themes` map, and each of them is there.
#[verifier::external_body]
fn load_theme_set() -> (r: syntect::highlighting::ThemeSet)
    ensures
        forall|n: Seq<char>| #[trigger] default_theme_names().contains(n) ==> theme_names(r).contains(n),
{
    syntect::highlighting::ThemeSet::load_defaults()
}

/// The theme stored under the key `name` in a theme set's `themes` map.
pub uninterp spec fn theme_of(set: syntect::highlighting::ThemeSet, name: Seq<char>) -> syntect::highlighting::Theme;

/// Trusted: looks the theme `name` up in the set's `themes` map (`BTreeMap::get`),
/// which finds a theme exactly when `name` is one of the map's keys, and then
/// the theme stored under that key, named `theme_of`.
#[verifier::external_body]
fn theme_named<'a>(set: &'a syntect::highlighting::ThemeSet, name: &str) -> (r: Option<&'a syntect::highlighting::Theme>)
    ensures
        r is Some <==> theme_names(*set).contains(name@),
        r matches Some(t) ==> *t == theme_of(*set, name@),
{
    set.themes.get(name)
}

/// What `SyntaxSet::find_syntax_by_token` finds in a syntax set for a language token.
pub uninterp spec fn token_syntax(set: syntect::parsing::SyntaxSet, token: Seq<char>) -> Option<syntect::parsing::SyntaxReference>;

/// Trusted: `SyntaxSet::find_syntax_by_token`, the syntax for a language token;
/// a function of the set and the token (it searches the set's list), named
/// `token_syntax`, and what it finds is one of the set's syntaxes.
#[verifier::external_body]
fn syntax_for_token<'a>(set: &'a syntect::parsing::SyntaxSet, token: &str) -> (r: Option<&'a syntect::parsing::SyntaxReference>)
    ensures
        r is Some <==> token_syntax(*set, token@) is Some,
        r matches Some(s) ==> syntax_from(*set, *s) && token_syntax(*set, token@) == Some(*s),
{
    set.find_syntax_by_token(token)
}

/// The syntax that `SyntaxSet::find_syntax_plain_text` finds in a syntax set.
pub uninterp spec fn plain_syntax(set: syntect::parsing::SyntaxSet) -> syntect::parsing::SyntaxReference;

/// Trusted: `SyntaxSet::find_syntax_plain_text`, the set's "Plain Text" syntax
/// (found with `find_syntax_by_name` in the set's list), named `plain_syntax`.
/// It panics on a set without one, which the `requires` leaves out.
#[verifier::external_body]
fn plain_text_syntax(set: &syntect::parsing::SyntaxSet) -> (r: &syntect::parsing::SyntaxReference)
    requires
        syntax_names(*set).contains(plain_text_name()),
    ensures
        syntax_from(*set, *r),
        *r == plain_syntax(*set),
{
    set.find_syntax_plain_text()
}

/// The text that every highlighted block starts with, up to the color of the
/// theme's background.
pub open spec fn pre_block_start() -> Seq<char> {
    "<pre style=\"background-color:#"@
}

/// The text that every highlighted block ends with.
pub open spec fn pre_block_end() -> Seq<char> {
    "</pre>\n"@
}

/// What `syntect::html::highlighted_html_for_string` gives for `code` with the
/// syntax `syntax` of the set `set` and the theme `theme`: the HTML, or nothing
/// when it fails.
pub uninterp spec fn highlighted_text(
    code: Seq<char>,
    set: syntect::parsing::SyntaxSet,
    syntax: syntect::parsing::SyntaxReference,
    theme: syntect::highlighting::Theme,
) -> Option<Seq<char>>;

/// Trusted: `syntect::html::highlighted_html_for_string`, its error dropped. Its
/// result is a function of its arguments, named `highlighted_text`. Its source
/// opens the block with `start_highlighted_html_snippet` (a `<pre>` tag with
/// the background color) and closes it with `</pre>` and a newline. The syntax
/// must be one of the set's own.
#[verifier::external_body]
fn highlighted_html(
    code: &str,
    set: &syntect::parsing::SyntaxSet,
    syntax: &syntect::parsing::SyntaxReference,
    theme: &syntect::highlighting::Theme,
) -> (r: Result<String, ()>)
    requires
        syntax_from(*set, *syntax),
    ensures
        r is Ok <==> highlighted_text(code@, *set, *syntax, *theme) is Some,
        r matches Ok(h) ==> highlighted_text(code@, *set, *syntax, *theme) == Some(h@),
        r matches Ok(h) ==> exists|body: Seq<char>| h@ == pre_block_start() + body + pre_block_end(),
{
    syntect::html::highlighted_html_for_string(code, set, syntax, theme).map_err(|_| ())
}

/// `svg` is a drawing that `mermaid_svg::render` may give for the diagram
/// source `source`. A relation, not a function: the drawing of some diagrams
/// (a gantt chart's marker for today) depends on the clock.
pub uninterp spec fn mermaid_svg_of(source: Seq<char>, svg: Seq<char>) -> bool;

/// Trusted: `mermaid_svg::render`, the error turned into its `Display` text; a
/// drawing it gives is one that `mermaid_svg_of` relates to the source. That
/// it returns on every source is taken from the crate: the `unwrap` and
/// `expect` calls in its source were sampled, not all examined.
#[verifier::external_body]
fn mermaid_render(source: &str) -> (r: Result<String, String>)
    ensures
        r matches Ok(svg) ==> mermaid_svg_of(source@, svg@),
{
    mermaid_svg::render(source).map_err(|e| e.to_string())
}

// ---------------------------------------------------------------------------
// Styles and the transform.
// ---------------------------------------------------------------------------

/// The syntax definitions and color themes that code blocks are highlighted with.
pub struct StyleStore {
    syntax_set: syntect::parsing::SyntaxSet,
    theme_set: syntect::highlighting::ThemeSet,
}

/// The name of the theme that code blocks are highlighted with.
pub open spec fn code_theme_name() -> Seq<char> {
    "Solarized (dark)"@
}

impl StyleStore {
    /// Whether a theme of this name is loaded.
    pub closed spec fn has_theme(self, name: Seq<char>) -> bool {
        theme_names(self.theme_set).contains(name)
    }

    /// Whether a syntax of this name is loaded.
    pub closed spec fn has_syntax(self, name: Seq<char>) -> bool {
        syntax_names(self.syntax_set).contains(name)
    }

    /// The syntax that a code block in the language `lang` is highlighted with:
    /// the one `find_syntax_by_token` finds for `lang`, else plain text.
    pub closed spec fn code_syntax(self, lang: Seq<char>) -> syntect::parsing::SyntaxReference {
        match token_syntax(self.syntax_set, lang) {
            Some(s) => s,
            None => plain_syntax(self.syntax_set),
        }
    }

    /// The highlighted HTML of the code block `code` in the language `lang`:
    /// `highlighted_html_for_string` with the syntax `code_syntax(lang)` and the
    /// code theme; nothing when the highlighter fails.
    pub closed spec fn code_highlight(self, lang: Seq<char>, code: Seq<char>) -> Option<Seq<char>> {
        highlighted_text(code, self.syntax_set, self.code_syntax(lang), theme_of(self.theme_set, code_theme_name()))
    }

    /// Every style store holds the theme that code blocks are highlighted with,
    /// and the plain-text syntax that unknown languages fall back to.
    #[verifier::type_invariant]
    spec fn styles_loaded(self) -> bool {
        &&& theme_names(self.theme_set).contains(code_theme_name())
        &&& syntax_names(self.syntax_set).contains(plain_text_name())
    }

    /// The default syntaxes (for newline-terminated lines) and the default themes.
    pub fn new() -> (s: Self)
        ensures
            forall|n: Seq<char>| #[trigger] default_theme_names().contains(n) ==> s.has_theme(n),
            s.has_syntax(plain_text_name()),
    {
        let theme_set = load_theme_set();
        assert(default_theme_names().contains(code_theme_name()));
        StyleStore { syntax_set: load_syntax_set(), theme_set }
    }
}

/// The theme that code blocks are highlighted with.
fn theme_name() -> (s: String)
    ensures
        s@ == code_theme_name(),
{
    let mut v: Vec<char> = Vec::new();
    push_str(&mut v, "Solarized (dark)");
    string_of(v.as_slice())
}

/// Highlights `code` as `lang` (plain text when the language is unknown) with
/// the code theme: a `<pre>` block with the theme's background color.
fn highlight_block(style_store: &StyleStore, lang: &String, code: &String) -> (r: Result<String, AppError>)
    ensures
        match style_store.code_highlight(lang@, code@) {
            Some(h) => r matches Ok(x) && x@ == h,
            None => r matches Err(AppError::MarkdownParserFailed),
        },
        r matches Ok(h) ==> exists|body: Seq<char>| h@ == pre_block_start() + body + pre_block_end(),
{
    proof {
        use_type_invariant(style_store);
    }
    let name = theme_name();
    let theme = match theme_named(&style_store.theme_set, name.as_str()) {
        Some(t) => t,
        None => {
            // The type invariant keeps the code theme loaded.
            assert(false);
            return Err(AppError::MarkdownParserFailed);
        },
    };
    let syntax = match syntax_for_token(&style_store.syntax_set, lang.as_str()) {
        Some(s) => s,
        None => plain_text_syntax(&style_store.syntax_set),
    };
    match highlighted_html(code.as_str(), &style_store.syntax_set, syntax, theme) {
        Ok(html) => Ok(html),
        Err(()) => Err(AppError::MarkdownParserFailed),
    }
}

/// What a drawn diagram is wrapped in: `<div class="mermaid-diagram">` and `</div>`.
pub open spec fn diagram_html(svg: Seq<char>) -> Seq<char> {
    "<div class=\"mermaid-diagram\">"@ + svg + "</div>"@
}

/// Draws a `mermaid` block and wraps the SVG in `<div class="mermaid-diagram">`.
fn draw_diagram(code: &String) -> (r: Result<String, AppError>)
    ensures
        r matches Err(e) ==> e is MermaidRenderError,
        r matches Ok(h) ==> exists|svg: Seq<char>| h@ == diagram_html(svg) && mermaid_svg_of(code@, svg),
{
    match mermaid_render(code.as_str()) {
        Ok(svg) => {
            let mut v: Vec<char> = Vec::new();
            push_str(&mut v, "<div class=\"mermaid-diagram\">");
            push_str(&mut v, svg.as_str());
            push_str(&mut v, "</div>");
            assert(v@ == diagram_html(svg@));
            Ok(string_of(v.as_slice()))
        },
        Err(msg) => Err(AppError::MermaidRenderError(msg)),
    }
}

/// `h` is the block that stands for the replaced step `s`: for a `mermaid` block,
/// a drawing of its own source in the diagram wrapper; for a code block, the
/// highlighted HTML of its own code in its own language (a `<pre>` block).
pub open spec fn block_fits(styles: StyleStore, s: PlanStep, h: Seq<char>) -> bool {
    match s {
        PlanStep::Mermaid(code) => exists|svg: Seq<char>| h == diagram_html(svg) && mermaid_svg_of(code, svg),
        PlanStep::Highlight(lang, code) => {
            &&& styles.code_highlight(lang, code) == Some(h)
            &&& exists|body: Seq<char>| h == pre_block_start() + body + pre_block_end()
        },
        _ => false,
    }
}

/// `blocks` holds the block of each replaced step of `steps`, in order.
pub open spec fn blocks_fit(styles: StyleStore, steps: Seq<PlanStep>, blocks: Seq<Seq<char>>) -> bool {
    let bs = block_steps(steps);
    &&& blocks.len() == bs.len()
    &&& forall|j: int| 0 <= j < bs.len() ==> #[trigger] block_fits(styles, bs[j], blocks[j])
}

/// The step `s` is a code block that the highlighter fails on.
pub open spec fn highlight_fails(styles: StyleStore, s: PlanStep) -> bool {
    match s {
        PlanStep::Highlight(lang, code) => styles.code_highlight(lang, code) is None,
        _ => false,
    }
}

/// The highlighter fails on some code block of `steps`.
pub open spec fn some_highlight_fails(styles: StyleStore, steps: Seq<PlanStep>) -> bool {
    exists|i: int| 0 <= i < steps.len() && #[trigger] highlight_fails(styles, steps[i])
}

/// Some step of `steps` is a `mermaid` block.
pub open spec fn has_mermaid(steps: Seq<PlanStep>) -> bool {
    exists|i: int| 0 <= i < steps.len() && #[trigger] steps[i] is Mermaid
}

/// Draws and highlights the replaced steps of the plan, in order, and stops at
/// the first that fails.
fn render_blocks(style_store: &StyleStore, steps: &Vec<MdStep>) -> (r: Result<Vec<String>, AppError>)
    ensures
        r matches Ok(bs) ==> blocks_fit(*style_store, steps_view(steps@), bs@.map_values(|b: String| b@)),
        r matches Err(e) ==> (e is MermaidRenderError && has_mermaid(steps_view(steps@))) || (e is MarkdownParserFailed
            && some_highlight_fails(*style_store, steps_view(steps@))),
        !has_mermaid(steps_view(steps@)) && !some_highlight_fails(*style_store, steps_view(steps@)) ==> r is Ok,
{
    let ghost sv = steps_view(steps@);
    let mut blocks: Vec<String> = Vec::new();
    let mut i: usize = 0;
    while i < steps.len()
        invariant
            i <= steps@.len(),
            sv == steps_view(steps@),
            ({
                let bs = block_steps(sv.take(i as int));
                let bv = blocks@.map_values(|b: String| b@);
                &&& bv.len() == bs.len()
                &&& forall|j: int| 0 <= j < bs.len() ==> #[trigger] block_fits(*style_store, bs[j], bv[j])
            }),
        decreases steps.len() - i,
    {
        let ghost t = sv.take(i as int);
        let ghost old_blocks = blocks@;
        assert(sv.take(i + 1).drop_last() =~= t);
        assert(sv.take(i + 1).last() == sv[i as int]);
        assert(sv[i as int] == steps@[i as int].view_step());
        match &steps[i] {
            MdStep::Mermaid(code) => {
                let b = match draw_diagram(code) {
                    Ok(b) => b,
                    Err(e) => {
                        assert(sv[i as int] is Mermaid);
                        return Err(e);
                    },
                };
                blocks.push(b);
            },
            MdStep::Highlight(lang, code) => {
                let b = match highlight_block(style_store, lang, code) {
                    Ok(b) => b,
                    Err(e) => {
                        assert(highlight_fails(*style_store, sv[i as int]));
                        return Err(e);
                    },
                };
                blocks.push(b);
            },
            _ => {},
        }
        proof {
            let bs2 = block_steps(sv.take(i + 1));
            let bv2 = blocks@.map_values(|b: String| b@);
            assert forall|j: int| 0 <= j < bs2.len() implies #[trigger] block_fits(*style_store, bs2[j], bv2[j]) by {
                if j < old_blocks.len() {
                    assert(bv2[j] == old_blocks[j]@);
                    assert(old_blocks.map_values(|b: String| b@)[j] == old_blocks[j]@);
                }
            }
        }
        i += 1;
    }
    assert(sv.take(sv.len() as int) =~= sv);
    Ok(blocks)
}

/// The plan for the Markdown text `text`: what becomes of each of its events.
pub open spec fn markdown_steps(text: Seq<char>) -> Seq<PlanStep> {
    md_plan(md_event_kinds(text, MARKDOWN_OPTIONS)).1
}

/// A result of the transform as plain values.
pub open spec fn text_result(r: Result<String, AppError>) -> Result<Seq<char>, AppError> {
    match r {
        Ok(s) => Ok(s@),
        Err(e) => Err(e),
    }
}

/// What the transform may give for the content `content` with the styles
/// `styles`. Content that is not UTF-8 is refused with `BadRequest` and the
/// decoder's message. Otherwise the HTML is what the renderer writes for the
/// parsed events with each code block replaced by the highlighted HTML of its
/// own code and language, and each `mermaid` block by a drawing of its own
/// source; the transform succeeds when there is no diagram to draw and the
/// highlighter fails on no code block, and an error comes only from a diagram
/// or from a code block that the highlighter fails on.
pub open spec fn markdown_outcome(styles: StyleStore, content: Seq<u8>, r: Result<Seq<char>, AppError>) -> bool {
    if !valid_utf8(content) {
        r matches Err(AppError::BadRequest(m)) && m@ == utf8_error_text(content)
    } else {
        let text = decode_utf8(content);
        let steps = markdown_steps(text);
        &&& (r matches Ok(h) ==> exists|blocks: Seq<Seq<char>>|
            #[trigger] blocks_fit(styles, steps, blocks) && h == md_html(text, MARKDOWN_OPTIONS, md_output(steps, blocks)))
        &&& (!has_mermaid(steps) && !some_highlight_fails(styles, steps) ==> r is Ok)
        &&& (r matches Err(e) ==> (e is MermaidRenderError && has_mermaid(steps)) || (e is MarkdownParserFailed
            && some_highlight_fails(styles, steps)))
    }
}

/// Renders a Markdown paste to HTML (tables, strikethrough, task lists and
/// smart punctuation enabled), with fenced code blocks highlighted and `mermaid`
/// blocks drawn, in the order they occur. Content that is not UTF-8 is refused
/// with `BadRequest` and the decoder's message; the first block that cannot be
/// drawn or highlighted fails the whole transform.
pub fn transform_md(paste: &Paste, style_store: &StyleStore) -> (r: Result<String, AppError>)
    ensures
        markdown_outcome(*style_store, paste.content@, text_result(r)),
{
    let md = match decode_utf8_string(paste.content.clone()) {
        Ok(s) => s,
        Err(msg) => {
            return Err(AppError::BadRequest(msg));
        },
    };
    let kinds = md_event_kinds_of(md.as_str(), MARKDOWN_OPTIONS);
    let steps = plan_code_blocks(&kinds);
    let ghost sv = steps_view(steps@);
    assert(sv == markdown_steps(md@));
    proof {
        lemma_plan_len(kinds_view(kinds@));
    }
    let blocks = match render_blocks(style_store, &steps) {
        Ok(b) => b,
        Err(e) => {
            return Err(e);
        },
    };
    proof {
        lemma_block_steps_prefix(sv, sv.len() as int);
        assert(sv.take(sv.len() as int) =~= sv);
    }
    let out = md_output_events(&steps, &blocks);
    assert(steps@.len() == kinds@.len());
    assert(md_event_kinds(md@, MARKDOWN_OPTIONS).len() == kinds@.len());
    let html = md_render(md.as_str(), MARKDOWN_OPTIONS, &out);
    assert(blocks_fit(*style_store, sv, blocks@.map_values(|b: String| b@)));
    Ok(html)
}

} // verus!

verus! {

// ---------------------------------------------------------------------------
// Laws of the code-block plan and of highlighting.
// ---------------------------------------------------------------------------

/// The text of the `Text` events of `ks`, in order.
pub open spec fn texts(ks: Seq<KindView>) -> Seq<char>
    decreases ks.len(),
{
    if ks.len() == 0 {
        Seq::empty()
    } else {
        texts(ks.drop_last()) + match ks.last() {
            KindView::Text(t) => t,
            _ => Seq::<char>::empty(),
        }
    }
}

/// A `mermaid` block opened among the first `n` events and not closed before the `n`-th.
pub open spec fn open_mermaid(ks: Seq<KindView>, n: int) -> bool {
    exists|m: int|
        0 <= m < n && #[trigger] ks[m] == KindView::FencedCodeStart(mermaid_lang()) && forall|e: int|
            m < e < n ==> !(ks[e] is CodeBlockEnd)
}

proof fn lemma_plan_step(ks: Seq<KindView>, n: int)
    requires
        0 <= n < ks.len(),
    ensures
        md_plan(ks.take(n + 1)).0 == md_step(md_plan(ks.take(n)).0, ks[n]).0,
        md_plan(ks.take(n + 1)).1 == md_plan(ks.take(n)).1.push(md_step(md_plan(ks.take(n)).0, ks[n]).1),
{
    assert(ks.take(n + 1).drop_last() =~= ks.take(n));
    assert(ks.take(n + 1).last() == ks[n]);
}

/// The step of an event does not depend on the events after it.
proof fn lemma_plan_prefix(ks: Seq<KindView>, n: int, i: int)
    requires
        0 <= i < n <= ks.len(),
    ensures
        md_plan(ks.take(n)).1[i] == md_plan(ks).1[i],
    decreases ks.len() - n,
{
    if n == ks.len() {
        assert(ks.take(n) =~= ks);
    } else {
        lemma_plan_step(ks, n);
        lemma_plan_len(ks.take(n));
        lemma_plan_prefix(ks, n + 1, i);
    }
}

/// The walk is inside a `mermaid` block only after an unclosed `mermaid` fence.
proof fn lemma_in_mermaid(ks: Seq<KindView>, n: int)
    requires
        0 <= n <= ks.len(),
    ensures
        md_plan(ks.take(n)).0.in_mermaid ==> open_mermaid(ks, n),
    decreases n,
{
    if n == 0 {
        assert(ks.take(0) =~= Seq::<KindView>::empty());
    } else {
        lemma_in_mermaid(ks, n - 1);
        lemma_plan_step(ks, n - 1);
        let st = md_plan(ks.take(n - 1)).0;
        if md_plan(ks.take(n)).0.in_mermaid {
            if ks[n - 1] == KindView::FencedCodeStart(mermaid_lang()) {
                assert(ks[n - 1] == KindView::FencedCodeStart(mermaid_lang()));
            } else {
                assert(st.in_mermaid);
                let m = choose|m: int|
                    0 <= m < n - 1 && #[trigger] ks[m] == KindView::FencedCodeStart(mermaid_lang()) && forall|e: int|
                        m < e < n - 1 ==> !(ks[e] is CodeBlockEnd);
                assert(!(ks[n - 1] is CodeBlockEnd));
                assert forall|e: int| m < e < n implies !(ks[e] is CodeBlockEnd) by {}
                assert(ks[m] == KindView::FencedCodeStart(mermaid_lang()));
            }
        }
    }
}

/// Inside a block that opened at `o`, with only text and other events since,
/// the walk keeps the block's flags and language and has gathered exactly the
/// text of those events.
proof fn lemma_fence_body(ks: Seq<KindView>, o: int, n: int)
    requires
        0 <= o < n <= ks.len(),
        ks[o] is FencedCodeStart,
        forall|j: int| o < j < n ==> #[trigger] ks[j] is Text || ks[j] is Other,
    ensures
        ({
            let st = md_plan(ks.take(n)).0;
            let st1 = md_plan(ks.take(o + 1)).0;
            &&& st.in_mermaid == st1.in_mermaid
            &&& st.in_code_block == st1.in_code_block
            &&& st.lang == st1.lang
            &&& st.code == texts(ks.subrange(o + 1, n))
            &&& st1.in_mermaid || st1.in_code_block
        }),
    decreases n - o,
{
    lemma_plan_step(ks, o);
    if n == o + 1 {
        assert(ks.subrange(o + 1, n) =~= Seq::<KindView>::empty());
    } else {
        lemma_fence_body(ks, o, n - 1);
        lemma_plan_step(ks, n - 1);
        assert(ks.subrange(o + 1, n).drop_last() =~= ks.subrange(o + 1, n - 1));
        assert(ks.subrange(o + 1, n).last() == ks[n - 1]);
        assert(ks[n - 1] is Text || ks[n - 1] is Other);
    }
}

/// A code block holds exactly its own text: for a block that opens with the
/// fence `lang` at event `o` and ends at event `k`, with only text and other
/// events between, the step at `k` is a diagram of (for `mermaid`) or a
/// highlighted block in `lang` of the text of the events between, and nothing
/// of any earlier block. Every `mermaid` block opened before `o` must have
/// closed before it, as in any event list of the parser.
pub proof fn law_code_block_holds_its_own_text(ks: Seq<KindView>, lang: Seq<char>, o: int, k: int)
    requires
        0 <= o < k < ks.len(),
        ks[o] == KindView::FencedCodeStart(lang),
        ks[k] is CodeBlockEnd,
        forall|j: int| o < j < k ==> #[trigger] ks[j] is Text || ks[j] is Other,
        forall|m: int|
            0 <= m < o && #[trigger] ks[m] == KindView::FencedCodeStart(mermaid_lang()) ==> exists|e: int|
                m < e < o && #[trigger] ks[e] is CodeBlockEnd,
    ensures
        md_plan(ks).1[k] == (if lang == mermaid_lang() {
            PlanStep::Mermaid(texts(ks.subrange(o + 1, k)))
        } else {
            PlanStep::Highlight(lang, texts(ks.subrange(o + 1, k)))
        }),
{
    lemma_in_mermaid(ks, o);
    if open_mermaid(ks, o) {
        let m = choose|m: int|
            0 <= m < o && #[trigger] ks[m] == KindView::FencedCodeStart(mermaid_lang()) && forall|e: int|
                m < e < o ==> !(ks[e] is CodeBlockEnd);
        let e = choose|e: int| m < e < o && #[trigger] ks[e] is CodeBlockEnd;
        assert(false);
    }
    lemma_plan_step(ks, o);
    lemma_fence_body(ks, o, k);
    lemma_plan_step(ks, k);
    lemma_plan_len(ks.take(k));
    lemma_plan_prefix(ks, k + 1, k);
}

impl StyleStore {
    /// The syntax set of the store.
    pub closed spec fn syntaxes(self) -> syntect::parsing::SyntaxSet {
        self.syntax_set
    }

    /// The theme set of the store.
    pub closed spec fn themes(self) -> syntect::highlighting::ThemeSet {
        self.theme_set
    }
}

/// A code block is highlighted in its own language: when
/// `find_syntax_by_token` finds a syntax for the block's language, its HTML is
/// `highlighted_html_for_string` with that syntax and the code theme; plain
/// text is used only when it finds none.
pub proof fn law_code_block_uses_its_language(styles: StyleStore, lang: Seq<char>, code: Seq<char>)
    ensures
        token_syntax(styles.syntaxes(), lang) matches Some(s) ==> styles.code_highlight(lang, code)
            == highlighted_text(code, styles.syntaxes(), s, theme_of(styles.themes(), code_theme_name())),
        token_syntax(styles.syntaxes(), lang) is None ==> styles.code_highlight(lang, code) == highlighted_text(
            code,
            styles.syntaxes(),
            plain_syntax(styles.syntaxes()),
            theme_of(styles.themes(), code_theme_name()),
        ),
{
}

} // verus!
