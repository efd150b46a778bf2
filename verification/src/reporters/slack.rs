//! The Slack reporter: lays a finalized report out as Slack Block Kit
//! blocks and renders them as pretty-printed JSON, byte for byte as the
//! specification functions here state.

use vstd::prelude::*;

use crate::models::test_report::{finalize_seq, PrettyPrint, ReportBuilder, ReportBuilderView, StatusSet};
use crate::models::test_result::{markdown_str, TestResultView};
use crate::reporters::Reporter;
use crate::text::{append_str, append_escaped, chars_to_string, esc_seq};

verus! {

/// Mathematical image of a plain text object.
pub struct PlainTextView {
    pub text: Seq<char>,
    pub emoji: bool,
}

/// A Slack plain text object.
pub struct PlainText {
    pub text: String,
    pub emoji: bool,
}

impl View for PlainText {
    type V = PlainTextView;

    open spec fn view(&self) -> PlainTextView {
        PlainTextView { text: self.text@, emoji: self.emoji }
    }
}

/// Mathematical image of a markdown text object.
pub struct MarkdownTextView {
    pub text: Seq<char>,
}

/// A Slack markdown (`mrkdwn`) text object.
pub struct MarkdownText {
    pub text: String,
}

impl View for MarkdownText {
    type V = MarkdownTextView;

    open spec fn view(&self) -> MarkdownTextView {
        MarkdownTextView { text: self.text@ }
    }
}

/// Mathematical image of an interactive element.
pub enum ElementView {
    Button { text: PlainTextView, url: Seq<char> },
}

/// An interactive element of an actions block.
pub enum Element {
    Button { text: PlainText, url: String },
}

impl View for Element {
    type V = ElementView;

    open spec fn view(&self) -> ElementView {
        match self {
            Element::Button { text, url } => ElementView::Button { text: text@, url: url@ },
        }
    }
}

impl DeepView for Element {
    type V = ElementView;

    open spec fn deep_view(&self) -> ElementView {
        self.view()
    }
}

/// Mathematical image of one block.
pub enum BlockView {
    Header { text: PlainTextView },
    Section { text: MarkdownTextView },
    Actions { elements: Seq<ElementView> },
    Divider,
}

/// One Slack Block Kit block.
pub enum Block {
    Header { text: PlainText },
    Section { text: MarkdownText },
    Actions { elements: Vec<Element> },
    Divider,
}

impl View for Block {
    type V = BlockView;

    open spec fn view(&self) -> BlockView {
        match self {
            Block::Header { text } => BlockView::Header { text: text@ },
            Block::Section { text } => BlockView::Section { text: text@ },
            Block::Actions { elements } => BlockView::Actions { elements: elements.deep_view() },
            Block::Divider => BlockView::Divider,
        }
    }
}

impl DeepView for Block {
    type V = BlockView;

    open spec fn deep_view(&self) -> BlockView {
        self.view()
    }
}

/// Mathematical image of a whole Slack report.
pub struct SlackReportView {
    pub blocks: Seq<BlockView>,
}

/// A report laid out as Slack blocks.
pub struct SlackReport {
    pub blocks: Vec<Block>,
}

impl View for SlackReport {
    type V = SlackReportView;

    open spec fn view(&self) -> SlackReportView {
        SlackReportView { blocks: self.blocks.deep_view() }
    }
}

/// One Divider and one Section with the markdown line of each result, in
/// order.
pub open spec fn result_blocks(rs: Seq<TestResultView>) -> Seq<BlockView>
    decreases rs.len(),
{
    if rs.len() == 0 {
        Seq::empty()
    } else {
        result_blocks(rs.drop_last()) + seq![
            BlockView::Divider,
            BlockView::Section {
                text: MarkdownTextView { text: markdown_str(rs.last()) },
            },
        ]
    }
}

/// The blocks a builder state denotes:
/// - one Header with the title;
/// - per retained result one Divider and one Section, or, when there are
///   no results at all, exactly one Divider and one warning Section;
/// - when a link is present, one trailing Divider and one Actions block
///   with a single button to it.
pub open spec fn slack_blocks(b: ReportBuilderView) -> Seq<BlockView> {
    let header = BlockView::Header { text: PlainTextView { text: b.title, emoji: true } };
    let body = if b.test_results.len() == 0 {
        seq![
            BlockView::Divider,
            BlockView::Section {
                text: MarkdownTextView { text: "⚠️ unable to find test results"@ },
            },
        ]
    } else {
        result_blocks(b.test_results)
    };
    let tail = match b.link {
        Some(u) => seq![
            BlockView::Divider,
            BlockView::Actions {
                elements: seq![
                    ElementView::Button {
                        text: PlainTextView { text: ":link:  View details"@, emoji: true },
                        url: u,
                    },
                ],
            },
        ],
        None => Seq::<BlockView>::empty(),
    };
    seq![header] + body + tail
}

impl Reporter for SlackReport {
    /// Turns the builder state into Slack blocks, exactly as
    /// `slack_blocks` states. The further clauses spell out two
    /// consequences: a state with no results still gets one Divider and
    /// one warning Section after the header (never an empty body), and a
    /// link yields exactly one trailing Divider + Actions pair — the only
    /// Actions block of the report — while without a link no Actions block
    /// appears at all.
    fn from_builder(builder: ReportBuilder) -> (r: Self)
        ensures
            r@.blocks == slack_blocks(builder@),
            builder@.test_results.len() == 0 ==> r@.blocks.len() == 3 + (if builder@.link is Some {
                2int
            } else {
                0int
            }) && r@.blocks[0] == (BlockView::Header {
                text: PlainTextView { text: builder@.title, emoji: true },
            }) && r@.blocks[1] == BlockView::Divider && r@.blocks[2] == (BlockView::Section {
                text: MarkdownTextView { text: "⚠️ unable to find test results"@ },
            }),
            builder@.link matches Some(u) ==> r@.blocks.len() >= 3 && r@.blocks[r@.blocks.len()
                - 2] == BlockView::Divider && r@.blocks[r@.blocks.len() - 1] == (BlockView::Actions {
                elements: seq![
                    ElementView::Button {
                        text: PlainTextView { text: ":link:  View details"@, emoji: true },
                        url: u,
                    },
                ],
            }) && (forall|i: int|
                0 <= i < r@.blocks.len() - 1 ==> !(#[trigger] r@.blocks[i] is Actions)),
            builder@.link is None ==> forall|i: int|
                0 <= i < r@.blocks.len() ==> !(#[trigger] r@.blocks[i] is Actions),
    {
        let ghost bv = builder@;
        let mut blocks: Vec<Block> = Vec::new();
        blocks.push(
            Block::Header { text: PlainText { text: builder.title, emoji: true } },
        );
        let n = builder.test_results.len();
        if n == 0 {
            blocks.push(Block::Divider);
            blocks.push(
                Block::Section {
                    text: MarkdownText {
                        text: crate::text::string_from("⚠️ unable to find test results"),
                    },
                },
            );
        } else {
            let mut i: usize = 0;
            while i < n
                invariant
                    0 <= i <= n,
                    n == builder.test_results@.len(),
                    bv == builder@,
                    bv.test_results.len() == n,
                    blocks.deep_view() == seq![
                        BlockView::Header {
                            text: PlainTextView { text: bv.title, emoji: true },
                        },
                    ] + result_blocks(bv.test_results.take(i as int)),
                decreases n - i,
            {
                proof {
                    assert(bv.test_results[i as int] == builder.test_results@[i as int]@);
                    assert(bv.test_results.take(i + 1).drop_last() =~= bv.test_results.take(
                        i as int,
                    ));
                    assert(bv.test_results.take(i + 1).last() == bv.test_results[i as int]);
                }
                let line = builder.test_results[i].to_markdown_string();
                let ghost b0 = blocks.deep_view();
                blocks.push(Block::Divider);
                blocks.push(Block::Section { text: MarkdownText { text: line } });
                proof {
                    assert(blocks.deep_view() =~= b0 + seq![
                        BlockView::Divider,
                        BlockView::Section {
                            text: MarkdownTextView {
                                text: markdown_str(bv.test_results[i as int]),
                            },
                        },
                    ]);
                }
                i = i + 1;
            }
            proof {
                assert(bv.test_results.take(n as int) =~= bv.test_results);
            }
        }
        match builder.link {
            Some(link) => {
                let ghost lv = link@;
                let ghost b0 = blocks.deep_view();
                blocks.push(Block::Divider);
                let button = Element::Button {
                    text: PlainText {
                        text: crate::text::string_from(":link:  View details"),
                        emoji: true,
                    },
                    url: link,
                };
                let ghost butv = (ElementView::Button {
                    text: PlainTextView { text: ":link:  View details"@, emoji: true },
                    url: lv,
                });
                proof {
                    assert(button@ == butv);
                    assert(bv.link == Some(lv));
                }
                let mut elements: Vec<Element> = Vec::new();
                elements.push(button);
                proof {
                    assert(elements.deep_view() =~= seq![butv]);
                }
                blocks.push(Block::Actions { elements });
                proof {
                    assert(blocks.deep_view() =~= b0 + seq![
                        BlockView::Divider,
                        BlockView::Actions { elements: seq![butv] },
                    ]);
                }
            },
            None => {},
        }
        let r = SlackReport { blocks };
        proof {
            assert(r@.blocks =~= slack_blocks(bv));
            if bv.test_results.len() == 0 {
                lemma_empty_results_render_warning(bv);
            }
            lemma_link_renders_one_actions_pair(bv);
        }
        r
    }
}

/// Two spaces per indentation level.
pub open spec fn sp(ind: nat) -> Seq<char> {
    Seq::new(2 * ind, |i: int| ' ')
}

pub open spec fn bool_str(b: bool) -> Seq<char> {
    if b {
        "true"@
    } else {
        "false"@
    }
}

/// A JSON string literal: the text escaped, between quotes.
pub open spec fn quoted(s: Seq<char>) -> Seq<char> {
    seq!['"'] + esc_seq(s) + seq!['"']
}

/// The pretty JSON of a plain text object at indentation `ind`.
pub open spec fn plain_text_json(t: PlainTextView, ind: nat) -> Seq<char> {
    "{\n"@ + sp(ind + 1) + "\"type\": \"plain_text\",\n"@ + sp(ind + 1) + "\"text\": "@ + quoted(
        t.text,
    ) + ",\n"@ + sp(ind + 1) + "\"emoji\": "@ + bool_str(t.emoji) + "\n"@ + sp(ind) + "}"@
}

/// The pretty JSON of a markdown text object at indentation `ind`.
pub open spec fn mrkdwn_json(t: MarkdownTextView, ind: nat) -> Seq<char> {
    "{\n"@ + sp(ind + 1) + "\"type\": \"mrkdwn\",\n"@ + sp(ind + 1) + "\"text\": "@ + quoted(t.text)
        + "\n"@ + sp(ind) + "}"@
}

/// The pretty JSON of one element at indentation `ind`.
pub open spec fn element_json(e: ElementView, ind: nat) -> Seq<char> {
    match e {
        ElementView::Button { text, url } => "{\n"@ + sp(ind + 1) + "\"type\": \"button\",\n"@ + sp(
            ind + 1,
        ) + "\"text\": "@ + plain_text_json(text, ind + 1) + ",\n"@ + sp(ind + 1) + "\"url\": "@
            + quoted(url) + "\n"@ + sp(ind) + "}"@,
    }
}

/// The element list items, one per line, separated by commas.
pub open spec fn element_items(es: Seq<ElementView>, ind: nat) -> Seq<char>
    decreases es.len(),
{
    if es.len() == 0 {
        Seq::empty()
    } else if es.len() == 1 {
        sp(ind) + element_json(es[0], ind)
    } else {
        element_items(es.drop_last(), ind) + ",\n"@ + sp(ind) + element_json(es.last(), ind)
    }
}

/// The pretty JSON of an element array at indentation `ind`.
pub open spec fn elements_json(es: Seq<ElementView>, ind: nat) -> Seq<char> {
    if es.len() == 0 {
        "[]"@
    } else {
        "[\n"@ + element_items(es, ind + 1) + "\n"@ + sp(ind) + "]"@
    }
}

/// The pretty JSON of one block at indentation `ind`.
pub open spec fn block_json(b: BlockView, ind: nat) -> Seq<char> {
    match b {
        BlockView::Header { text } => "{\n"@ + sp(ind + 1) + "\"type\": \"header\",\n"@ + sp(
            ind + 1,
        ) + "\"text\": "@ + plain_text_json(text, ind + 1) + "\n"@ + sp(ind) + "}"@,
        BlockView::Section { text } => "{\n"@ + sp(ind + 1) + "\"type\": \"section\",\n"@ + sp(
            ind + 1,
        ) + "\"text\": "@ + mrkdwn_json(text, ind + 1) + "\n"@ + sp(ind) + "}"@,
        BlockView::Actions { elements } => "{\n"@ + sp(ind + 1) + "\"type\": \"actions\",\n"@ + sp(
            ind + 1,
        ) + "\"elements\": "@ + elements_json(elements, ind + 1) + "\n"@ + sp(ind) + "}"@,
        BlockView::Divider => "{\n"@ + sp(ind + 1) + "\"type\": \"divider\"\n"@ + sp(ind) + "}"@,
    }
}

/// The block list items, one per line, separated by commas.
pub open spec fn block_items(bs: Seq<BlockView>, ind: nat) -> Seq<char>
    decreases bs.len(),
{
    if bs.len() == 0 {
        Seq::empty()
    } else if bs.len() == 1 {
        sp(ind) + block_json(bs[0], ind)
    } else {
        block_items(bs.drop_last(), ind) + ",\n"@ + sp(ind) + block_json(bs.last(), ind)
    }
}

/// The pretty JSON of a block array at indentation `ind`.
pub open spec fn blocks_json(bs: Seq<BlockView>, ind: nat) -> Seq<char> {
    if bs.len() == 0 {
        "[]"@
    } else {
        "[\n"@ + block_items(bs, ind + 1) + "\n"@ + sp(ind) + "]"@
    }
}

/// The whole rendered report: one top-level object with the block array
/// under `blocks`.
pub open spec fn report_json(r: SlackReportView) -> Seq<char> {
    "{\n"@ + sp(1) + "\"blocks\": "@ + blocks_json(r.blocks, 1) + "\n}"@
}

fn push_sp(out: &mut Vec<char>, ind: usize)
    requires
        ind <= 8,
    ensures
        final(out)@ == old(out)@ + sp(ind as nat),
{
    let mut k: usize = 0;
    proof {
        assert(out@ + sp(0) =~= out@);
    }
    while k < ind
        invariant
            0 <= k <= ind,
            out@ == old(out)@ + sp(k as nat),
        decreases ind - k,
    {
        out.push(' ');
        out.push(' ');
        proof {
            assert(out@ =~= old(out)@ + sp((k + 1) as nat));
        }
        k = k + 1;
    }
}

fn push_quoted(out: &mut Vec<char>, s: &str)
    ensures
        final(out)@ == old(out)@ + quoted(s@),
{
    out.push('"');
    append_escaped(out, s);
    out.push('"');
    proof {
        assert(out@ =~= old(out)@ + quoted(s@));
    }
}

fn push_plain_text(out: &mut Vec<char>, t: &PlainText, ind: usize)
    requires
        ind + 1 <= 8,
    ensures
        final(out)@ == old(out)@ + plain_text_json(t@, ind as nat),
{
    append_str(out, "{\n");
    push_sp(out, ind + 1);
    append_str(out, "\"type\": \"plain_text\",\n");
    push_sp(out, ind + 1);
    append_str(out, "\"text\": ");
    push_quoted(out, t.text.as_str());
    append_str(out, ",\n");
    push_sp(out, ind + 1);
    append_str(out, "\"emoji\": ");
    if t.emoji {
        append_str(out, "true");
    } else {
        append_str(out, "false");
    }
    append_str(out, "\n");
    push_sp(out, ind);
    append_str(out, "}");
    proof {
        assert(out@ =~= old(out)@ + plain_text_json(t@, ind as nat));
    }
}

fn push_mrkdwn(out: &mut Vec<char>, t: &MarkdownText, ind: usize)
    requires
        ind + 1 <= 8,
    ensures
        final(out)@ == old(out)@ + mrkdwn_json(t@, ind as nat),
{
    append_str(out, "{\n");
    push_sp(out, ind + 1);
    append_str(out, "\"type\": \"mrkdwn\",\n");
    push_sp(out, ind + 1);
    append_str(out, "\"text\": ");
    push_quoted(out, t.text.as_str());
    append_str(out, "\n");
    push_sp(out, ind);
    append_str(out, "}");
    proof {
        assert(out@ =~= old(out)@ + mrkdwn_json(t@, ind as nat));
    }
}

fn push_element(out: &mut Vec<char>, e: &Element, ind: usize)
    requires
        ind + 2 <= 8,
    ensures
        final(out)@ == old(out)@ + element_json(e@, ind as nat),
{
    match e {
        Element::Button { text, url } => {
            append_str(out, "{\n");
            push_sp(out, ind + 1);
            append_str(out, "\"type\": \"button\",\n");
            push_sp(out, ind + 1);
            append_str(out, "\"text\": ");
            push_plain_text(out, text, ind + 1);
            append_str(out, ",\n");
            push_sp(out, ind + 1);
            append_str(out, "\"url\": ");
            push_quoted(out, url.as_str());
            append_str(out, "\n");
            push_sp(out, ind);
            append_str(out, "}");
            proof {
                assert(out@ =~= old(out)@ + element_json(e@, ind as nat));
            }
        },
    }
}

fn push_elements(out: &mut Vec<char>, es: &Vec<Element>, ind: usize)
    requires
        ind + 3 <= 8,
    ensures
        final(out)@ == old(out)@ + elements_json(es.deep_view(), ind as nat),
{
    let ghost ev = es.deep_view();
    let n = es.len();
    if n == 0 {
        append_str(out, "[]");
        return ;
    }
    append_str(out, "[\n");
    let mut i: usize = 0;
    while i < n
        invariant
            0 < n,
            0 <= i <= n,
            n == es@.len(),
            ev == es.deep_view(),
            ev.len() == n,
            ind + 3 <= 8,
            out@ == old(out)@ + "[\n"@ + element_items(ev.take(i as int), (ind + 1) as nat),
        decreases n - i,
    {
        proof {
            assert(ev[i as int] == es@[i as int]@);
            assert(ev.take(i + 1).drop_last() =~= ev.take(i as int));
            assert(ev.take(i + 1).last() == ev[i as int]);
        }
        if i > 0 {
            append_str(out, ",\n");
        }
        push_sp(out, ind + 1);
        push_element(out, &es[i], ind + 1);
        proof {
            if i == 0 {
                assert(element_items(ev.take(1), (ind + 1) as nat) == sp((ind + 1) as nat)
                    + element_json(ev[0], (ind + 1) as nat));
                assert(out@ =~= old(out)@ + "[\n"@ + element_items(ev.take(1), (ind + 1) as nat));
            } else {
                assert(out@ =~= old(out)@ + "[\n"@ + element_items(
                    ev.take(i + 1),
                    (ind + 1) as nat,
                ));
            }
        }
        i = i + 1;
    }
    proof {
        assert(ev.take(n as int) =~= ev);
    }
    append_str(out, "\n");
    push_sp(out, ind);
    append_str(out, "]");
    proof {
        assert(out@ =~= old(out)@ + elements_json(ev, ind as nat));
    }
}

fn push_header(out: &mut Vec<char>, text: &PlainText, ind: usize)
    requires
        ind + 4 <= 8,
    ensures
        final(out)@ == old(out)@ + block_json(BlockView::Header { text: text@ }, ind as nat),
{
    append_str(out, "{\n");
    push_sp(out, ind + 1);
    append_str(out, "\"type\": \"header\",\n");
    push_sp(out, ind + 1);
    append_str(out, "\"text\": ");
    push_plain_text(out, text, ind + 1);
    append_str(out, "\n");
    push_sp(out, ind);
    append_str(out, "}");
    proof {
        assert(out@ =~= old(out)@ + block_json(BlockView::Header { text: text@ }, ind as nat));
    }
}

fn push_section(out: &mut Vec<char>, text: &MarkdownText, ind: usize)
    requires
        ind + 4 <= 8,
    ensures
        final(out)@ == old(out)@ + block_json(BlockView::Section { text: text@ }, ind as nat),
{
    append_str(out, "{\n");
    push_sp(out, ind + 1);
    append_str(out, "\"type\": \"section\",\n");
    push_sp(out, ind + 1);
    append_str(out, "\"text\": ");
    push_mrkdwn(out, text, ind + 1);
    append_str(out, "\n");
    push_sp(out, ind);
    append_str(out, "}");
    proof {
        assert(out@ =~= old(out)@ + block_json(BlockView::Section { text: text@ }, ind as nat));
    }
}

fn push_actions(out: &mut Vec<char>, elements: &Vec<Element>, ind: usize)
    requires
        ind + 4 <= 8,
    ensures
        final(out)@ == old(out)@ + block_json(
            BlockView::Actions { elements: elements.deep_view() },
            ind as nat,
        ),
{
    append_str(out, "{\n");
    push_sp(out, ind + 1);
    append_str(out, "\"type\": \"actions\",\n");
    push_sp(out, ind + 1);
    append_str(out, "\"elements\": ");
    push_elements(out, elements, ind + 1);
    append_str(out, "\n");
    push_sp(out, ind);
    append_str(out, "}");
    proof {
        assert(out@ =~= old(out)@ + block_json(
            BlockView::Actions { elements: elements.deep_view() },
            ind as nat,
        ));
    }
}

fn push_divider(out: &mut Vec<char>, ind: usize)
    requires
        ind + 4 <= 8,
    ensures
        final(out)@ == old(out)@ + block_json(BlockView::Divider, ind as nat),
{
    append_str(out, "{\n");
    push_sp(out, ind + 1);
    append_str(out, "\"type\": \"divider\"\n");
    push_sp(out, ind);
    append_str(out, "}");
    proof {
        assert(out@ =~= old(out)@ + block_json(BlockView::Divider, ind as nat));
    }
}

fn push_block(out: &mut Vec<char>, b: &Block, ind: usize)
    requires
        ind + 4 <= 8,
    ensures
        final(out)@ == old(out)@ + block_json(b@, ind as nat),
{
    match b {
        Block::Header { text } => push_header(out, text, ind),
        Block::Section { text } => push_section(out, text, ind),
        Block::Actions { elements } => push_actions(out, elements, ind),
        Block::Divider => push_divider(out, ind),
    }
}

impl PrettyPrint for SlackReport {
    /// Renders the report, byte for byte as `report_json` states.
    fn to_string_pretty(&self) -> (r: String)
        ensures
            r@ == report_json(self@),
    {
        let ghost bv = self.blocks.deep_view();
        let mut out: Vec<char> = Vec::new();
        append_str(&mut out, "{\n");
        push_sp(&mut out, 1);
        append_str(&mut out, "\"blocks\": ");
        let ghost head = out@;
        let n = self.blocks.len();
        if n == 0 {
            append_str(&mut out, "[]");
        } else {
            append_str(&mut out, "[\n");
            let mut i: usize = 0;
            while i < n
                invariant
                    0 < n,
                    0 <= i <= n,
                    n == self.blocks@.len(),
                    bv == self.blocks.deep_view(),
                    bv.len() == n,
                    head == out@.take(head.len() as int),
                    out@ == head + "[\n"@ + block_items(bv.take(i as int), 2),
                decreases n - i,
            {
                proof {
                    assert(bv[i as int] == self.blocks@[i as int]@);
                    assert(bv.take(i + 1).drop_last() =~= bv.take(i as int));
                    assert(bv.take(i + 1).last() == bv[i as int]);
                }
                if i > 0 {
                    append_str(&mut out, ",\n");
                }
                push_sp(&mut out, 2);
                push_block(&mut out, &self.blocks[i], 2);
                proof {
                    if i == 0 {
                        assert(block_items(bv.take(1), 2) == sp(2) + block_json(bv[0], 2));
                        assert(out@ =~= head + "[\n"@ + block_items(bv.take(1), 2));
                    } else {
                        assert(out@ =~= head + "[\n"@ + block_items(bv.take(i + 1), 2));
                    }
                    assert(head == out@.take(head.len() as int)) by {
                        assert(out@.take(head.len() as int) =~= head);
                    }
                }
                i = i + 1;
            }
            proof {
                assert(bv.take(n as int) =~= bv);
            }
            append_str(&mut out, "\n");
            push_sp(&mut out, 1);
            append_str(&mut out, "]");
        }
        append_str(&mut out, "\n}");
        proof {
            assert(out@ =~= report_json(self@));
        }
        chars_to_string(&out)
    }
}

/// Every block that a list of results produces is a Divider or a Section,
/// two per result.
proof fn lemma_result_blocks_shape(rs: Seq<TestResultView>)
    ensures
        result_blocks(rs).len() == 2 * rs.len(),
        forall|i: int|
            0 <= i < result_blocks(rs).len() ==> (#[trigger] result_blocks(rs)[i] is Divider
                || result_blocks(rs)[i] is Section),
    decreases rs.len(),
{
    if rs.len() > 0 {
        lemma_result_blocks_shape(rs.drop_last());
    }
}

/// A builder state filtered down to zero results renders, beyond the
/// header, exactly one Divider and one warning Section (before any link
/// blocks): never an empty body.
pub proof fn lemma_empty_results_render_warning(b: ReportBuilderView)
    requires
        b.test_results.len() == 0,
    ensures
        slack_blocks(b).len() == 3 + (if b.link is Some {
            2int
        } else {
            0int
        }),
        slack_blocks(b)[0] == (BlockView::Header {
            text: PlainTextView { text: b.title, emoji: true },
        }),
        slack_blocks(b)[1] == BlockView::Divider,
        slack_blocks(b)[2] == (BlockView::Section {
            text: MarkdownTextView { text: "⚠️ unable to find test results"@ },
        }),
{
}

/// Providing a link renders exactly one trailing Divider + Actions pair,
/// whose single button targets the link; omitting the link renders no
/// Actions block at all.
pub proof fn lemma_link_renders_one_actions_pair(b: ReportBuilderView)
    ensures
        (b.link matches Some(u) ==> slack_blocks(b).len() >= 3 && slack_blocks(b)[slack_blocks(
            b,
        ).len() - 2] == BlockView::Divider && slack_blocks(b)[slack_blocks(b).len() - 1] == (
        BlockView::Actions {
            elements: seq![
                ElementView::Button {
                    text: PlainTextView { text: ":link:  View details"@, emoji: true },
                    url: u,
                },
            ],
        })),
        (b.link is Some ==> forall|i: int|
            0 <= i < slack_blocks(b).len() - 1 ==> !(#[trigger] slack_blocks(b)[i] is Actions)),
        (b.link is None ==> forall|i: int|
            0 <= i < slack_blocks(b).len() ==> !(#[trigger] slack_blocks(b)[i] is Actions)),
{
    lemma_result_blocks_shape(b.test_results);
    let bl = slack_blocks(b);
    let header = BlockView::Header { text: PlainTextView { text: b.title, emoji: true } };
    let body = if b.test_results.len() == 0 {
        seq![
            BlockView::Divider,
            BlockView::Section {
                text: MarkdownTextView { text: "⚠️ unable to find test results"@ },
            },
        ]
    } else {
        result_blocks(b.test_results)
    };
    assert forall|i: int| 1 <= i < 1 + body.len() implies !(#[trigger] bl[i] is Actions) by {
        assert(bl[i] == body[i - 1]);
    }
}

/// The whole rendering pipeline, from raw report contents and
/// configuration to the rendered bytes, as one function. Every stage's
/// contract pins its result to a function of its input views alone, so
/// identical input content and identical configuration give byte-identical
/// rendered output; this lemma records that determinism.
pub open spec fn rendered_report(
    contents: Seq<Seq<char>>,
    title: Seq<char>,
    include_passed: bool,
    include_skipped: bool,
    link: Option<Seq<char>>,
) -> Seq<char> {
    let sel = StatusSet { failed: true, skipped: include_skipped, passed: include_passed };
    let builder = ReportBuilderView {
        title,
        test_results: finalize_seq(crate::collected_results(contents), sel),
        reportable_statuses: sel,
        link,
    };
    report_json(SlackReportView { blocks: slack_blocks(builder) })
}

/// Determinism of the pipeline: equal inputs and configuration, byte-equal
/// output.
pub proof fn lemma_rendering_deterministic(
    contents1: Seq<Seq<char>>,
    title1: Seq<char>,
    passed1: bool,
    skipped1: bool,
    link1: Option<Seq<char>>,
    contents2: Seq<Seq<char>>,
    title2: Seq<char>,
    passed2: bool,
    skipped2: bool,
    link2: Option<Seq<char>>,
)
    requires
        contents1 == contents2,
        title1 == title2,
        passed1 == passed2,
        skipped1 == skipped2,
        link1 == link2,
    ensures
        rendered_report(contents1, title1, passed1, skipped1, link1) == rendered_report(
            contents2,
            title2,
            passed2,
            skipped2,
            link2,
        ),
{
}

/// What the pipeline contract means for the shipped Slack target, spelled
/// out: a report obtained from a builder state through
/// `SlackReport::from_builder` holds exactly that state's blocks, and with
/// the pipeline's finalized state it renders, byte for byte,
/// `rendered_report` of the request's parts. Together with the pipeline
/// contract this settles the round-trip layout and the determinism of the
/// whole path for every caller.
pub proof fn lemma_slack_pipeline_renders(
    contents: Seq<Seq<char>>,
    title: Seq<char>,
    include_passed: bool,
    include_skipped: bool,
    link: Option<Seq<char>>,
    b: ReportBuilder,
    r: SlackReport,
)
    requires
        call_ensures(SlackReport::from_builder, (b,), r),
        b@ == (ReportBuilderView {
            title: title,
            test_results: finalize_seq(
                crate::collected_results(contents),
                StatusSet { failed: true, skipped: include_skipped, passed: include_passed },
            ),
            reportable_statuses: StatusSet {
                failed: true,
                skipped: include_skipped,
                passed: include_passed,
            },
            link: link,
        }),
    ensures
        r@.blocks == slack_blocks(b@),
        report_json(r@) == rendered_report(contents, title, include_passed, include_skipped, link),
{
}

} // verus!
